//! Index-addressed half-edge mesh kernel.
//!
//! Vertices, half-edges and faces live in three parallel append-only arenas
//! cross-referenced by integer index. Every face's boundary is a directed
//! `next`/`previous` cycle of half-edges; the ghost `spans` sequence records,
//! for each face, the contiguous block of half-edges that `add_face` created
//! for it, which makes the cycle structure available to specifications.

use vstd::prelude::*;

use crate::vec3::{Vec3, SCALE, MAX_COORD, tdiv, isqrt, isqrt_u128, tdiv_i128, mul_div_scale};

verus! {

/// A structural failure of a mesh operation. Every such failure marks a
/// corrupt or inconsistent input, not a transient condition.
#[derive(Clone, Copy, PartialEq, Eq, Structural, Debug)]
pub enum MeshError {
    /// A face's first three boundary vertices span a cross product below
    /// the sliver threshold (collinear, coincident, or nearly so), so no
    /// trustworthy unit normal exists.
    DegenerateFace,
    /// An operation would have produced a vertex coordinate beyond
    /// `MAX_COORD`, or a profile accumulator beyond `ACC_LIMIT`.
    CoordinateOverflow,
    /// An operation would have exhausted the arena index space.
    ArenaOverflow,
}

/// Radial profile step: an eighth of a unit, in micro-units.
pub const RADIAL_STEP: i64 = 125000;

/// Height profile step: a tenth of a unit, in micro-units.
pub const HEIGHT_STEP: i64 = 100000;

/// Largest magnitude a profile accumulator may reach.
pub const ACC_LIMIT: i64 = 1000000000000;

/// A mesh vertex: a fixed-point position, an optional back-reference to one
/// outgoing half-edge (set at most once), and a flag reserved for future
/// compaction (never set by any operation here).
#[derive(Clone, Copy, PartialEq, Eq, Structural, Debug)]
pub struct Vertex {
    pub position: Vec3,
    pub half_edge: Option<usize>,
    pub deleted: bool,
}

impl Vertex {
    pub fn new(position: Vec3) -> (r: Vertex)
        ensures
            r == (Vertex { position, half_edge: None, deleted: false }),
    {
        Vertex { position, half_edge: None, deleted: false }
    }
}

/// A directed boundary segment of one face.
#[derive(Clone, Copy, PartialEq, Eq, Structural, Debug)]
pub struct HalfEdge {
    pub from_vertex: usize,
    pub previous: Option<usize>,
    pub next: Option<usize>,
    pub twin: Option<usize>,
    pub face: Option<usize>,
}

impl HalfEdge {
    pub fn new(from_vertex: usize) -> (r: HalfEdge)
        ensures
            r == (HalfEdge {
                from_vertex,
                previous: None,
                next: None,
                twin: None,
                face: None,
            }),
    {
        HalfEdge { from_vertex, previous: None, next: None, twin: None, face: None }
    }
}

/// A face: one half-edge on its boundary loop and an optional cached
/// outward normal, computed lazily and only once.
#[derive(Clone, Copy, PartialEq, Eq, Structural, Debug)]
pub struct Face {
    pub half_edge: usize,
    pub normal: Option<Vec3>,
}

impl Face {
    pub fn new(half_edge: usize) -> (r: Face)
        ensures
            r == (Face { half_edge, normal: None }),
    {
        Face { half_edge, normal: None }
    }
}

/// The arena-based half-edge mesh.
pub struct Mesh {
    pub vertices: Vec<Vertex>,
    pub half_edges: Vec<HalfEdge>,
    pub faces: Vec<Face>,
    /// For each face, the index of its first half-edge and its degree.
    /// `add_face` always creates a face's half-edges as one contiguous block.
    pub spans: Ghost<Seq<(int, int)>>,
}

impl Mesh {
    /// First half-edge index of face `f`.
    pub open spec fn face_start(self, f: int) -> int {
        self.spans@[f].0
    }

    /// Degree (number of boundary edges and vertices) of face `f`.
    pub open spec fn face_degree(self, f: int) -> int {
        self.spans@[f].1
    }

    /// The boundary loop of face `f` is the contiguous half-edge block
    /// `[face_start, face_start + degree)`, cyclically linked in order.
    pub open spec fn wf_face(self, f: int) -> bool {
        let s = self.face_start(f);
        let n = self.face_degree(f);
        &&& 3 <= n
        &&& 0 <= s
        &&& s + n <= self.half_edges@.len()
        &&& self.faces@[f].half_edge == s
        &&& forall|i: int|
            0 <= i < n ==> (#[trigger] self.half_edges@[s + i]).face == Some(f as usize)
        &&& forall|i: int|
            0 <= i < n ==> (#[trigger] self.half_edges@[s + i]).next == Some(
                (s + ((i + 1) % n)) as usize,
            )
        &&& forall|i: int|
            0 <= i < n ==> (#[trigger] self.half_edges@[s + i]).previous == Some(
                (s + ((i + n - 1) % n)) as usize,
            )
    }

    /// Structural well-formedness of the whole mesh.
    pub open spec fn wf(self) -> bool {
        &&& self.spans@.len() == self.faces@.len()
        &&& forall|f: int| 0 <= f < self.faces@.len() ==> self.wf_face(f)
        &&& forall|e: int|
            0 <= e < self.half_edges@.len() ==> (#[trigger] self.half_edges@[e]).from_vertex
                < self.vertices@.len()
        &&& forall|v: int|
            0 <= v < self.vertices@.len() ==> (#[trigger] self.vertices@[v]).position.in_bounds()
        &&& forall|v: int|
            0 <= v < self.vertices@.len() ==> ((#[trigger] self.vertices@[v]).half_edge matches Some(
                h,
            ) ==> h < self.half_edges@.len())
        &&& forall|f: int|
            0 <= f < self.faces@.len() ==> ((#[trigger] self.faces@[f]).normal matches Some(nv)
                ==> nv.unit_bounds())
    }

    /// The vertex indices around face `f`, in boundary order.
    pub open spec fn face_vertices(self, f: int) -> Seq<usize> {
        Seq::new(
            self.face_degree(f) as nat,
            |i: int| self.half_edges@[self.face_start(f) + i].from_vertex,
        )
    }

    /// The vertex positions around face `f`, in boundary order.
    pub open spec fn face_positions(self, f: int) -> Seq<Vec3> {
        Seq::new(
            self.face_degree(f) as nat,
            |i: int| self.vertices@[self.face_vertices(f)[i] as int].position,
        )
    }

    pub fn new() -> (r: Mesh)
        ensures
            r.wf(),
            r.vertices@.len() == 0,
            r.half_edges@.len() == 0,
            r.faces@.len() == 0,
            r.spans@.len() == 0,
    {
        Mesh {
            vertices: Vec::new(),
            half_edges: Vec::new(),
            faces: Vec::new(),
            spans: Ghost(Seq::empty()),
        }
    }

    /// Appends a vertex and returns its index.
    pub fn add_vertex(&mut self, position: Vec3) -> (i: usize)
        requires
            old(self).wf(),
            position.in_bounds(),
        ensures
            final(self).wf(),
            i == old(self).vertices@.len(),
            final(self).vertices@ == old(self).vertices@.push(
                (Vertex { position, half_edge: None, deleted: false }),
            ),
            final(self).half_edges@ == old(self).half_edges@,
            final(self).faces@ == old(self).faces@,
            final(self).spans@ == old(self).spans@,
    {
        let index = self.vertices.len();
        self.vertices.push(Vertex::new(position));
        proof {
            assert forall|f: int| 0 <= f < self.faces@.len() implies self.wf_face(f) by {
                assert(old(self).wf_face(f));
            }
        }
        index
    }

    /// Creates one half-edge per vertex of the given cyclic boundary,
    /// links them into a closed `next`/`previous` cycle, creates the face,
    /// and records a back-reference on every boundary vertex that had none.
    ///
    /// Returns the new face's index.
    pub fn add_face(&mut self, vertices: &Vec<usize>) -> (i: usize)
        requires
            old(self).wf(),
            vertices@.len() >= 3,
            forall|k: int|
                0 <= k < vertices@.len() ==> #[trigger] vertices@[k] < old(self).vertices@.len(),
            old(self).half_edges@.len() + vertices@.len() < usize::MAX,
        ensures
            final(self).wf(),
            i == old(self).faces@.len(),
            // one new face, previous faces untouched
            final(self).faces@ == old(self).faces@.push(
                (Face { half_edge: old(self).half_edges@.len() as usize, normal: None }),
            ),
            final(self).spans@ == old(self).spans@.push(
                ((old(self).half_edges@.len() as int, vertices@.len() as int)),
            ),
            // one new half-edge block, previous half-edges untouched
            final(self).half_edges@.len() == old(self).half_edges@.len() + vertices@.len(),
            forall|e: int|
                0 <= e < old(self).half_edges@.len() ==> #[trigger] final(self).half_edges@[e]
                    == old(self).half_edges@[e],
            // the new half-edges, complete: rooted in boundary order,
            // cyclically linked, owned by the new face, twin never populated
            forall|k: int|
                0 <= k < vertices@.len() ==> #[trigger] final(self).half_edges@[old(
                    self,
                ).half_edges@.len() + k] == (HalfEdge {
                    from_vertex: vertices@[k],
                    previous: Some(
                        (old(self).half_edges@.len() + ((k + vertices@.len() - 1) % (
                        vertices@.len() as int))) as usize,
                    ),
                    next: Some(
                        (old(self).half_edges@.len() + ((k + 1) % (vertices@.len() as int))) as usize,
                    ),
                    twin: None,
                    face: Some(i),
                }),
            final(self).face_vertices(i as int) == vertices@,
            // vertices: positions and deleted flags never change
            final(self).vertices@.len() == old(self).vertices@.len(),
            forall|v: int|
                0 <= v < final(self).vertices@.len() ==> (#[trigger] final(self).vertices@[v]).position == old(self).vertices@[v].position && final(self).vertices@[v].deleted == old(self).vertices@[v].deleted,
            // a back-reference, once set, is never changed
            forall|v: int|
                0 <= v < final(self).vertices@.len() && old(self).vertices@[v].half_edge is Some
                    ==> #[trigger] final(self).vertices@[v] == old(self).vertices@[v],
            // vertices outside the boundary are untouched
            forall|v: int|
                0 <= v < final(self).vertices@.len() && !vertices@.contains(v as usize)
                    ==> #[trigger] final(self).vertices@[v] == old(self).vertices@[v],
            // every boundary vertex ends up with a back-reference, and a newly
            // set one points at a new half-edge rooted at that vertex
            forall|k: int|
                0 <= k < vertices@.len() ==> (#[trigger] final(self).vertices@[vertices@[k] as int]).half_edge is Some,
            forall|v: int|
                0 <= v < final(self).vertices@.len() && old(self).vertices@[v].half_edge is None
                    ==> ((#[trigger] final(self).vertices@[v]).half_edge matches Some(h) ==> old(
                    self,
                ).half_edges@.len() <= h < final(self).half_edges@.len() && final(self).half_edges@[h as int].from_vertex == v),
    {
        let index = self.faces.len();
        let n = vertices.len();
        let first_new = self.half_edges.len();

        // Create the boundary half-edges as one contiguous block, already
        // cyclically linked and pointing at the face about to be created.
        for k in 0..n
            invariant
                n == vertices@.len(),
                3 <= n,
                first_new + n < usize::MAX,
                forall|j: int|
                    0 <= j < vertices@.len() ==> #[trigger] vertices@[j] < self.vertices@.len(),
                self.half_edges@.len() == first_new + k,
                forall|e: int|
                    0 <= e < first_new ==> #[trigger] self.half_edges@[e] == old(
                        self,
                    ).half_edges@[e],
                forall|j: int|
                    0 <= j < k ==> #[trigger] self.half_edges@[first_new + j] == (HalfEdge {
                        from_vertex: vertices@[j],
                        previous: Some((first_new + ((j + n - 1) % (n as int))) as usize),
                        next: Some((first_new + ((j + 1) % (n as int))) as usize),
                        twin: None,
                        face: Some(index),
                    }),
                self.faces@ == old(self).faces@,
                self.spans@ == old(self).spans@,
                index == self.faces@.len(),
                self.vertices@.len() == old(self).vertices@.len(),
                forall|v: int|
                    0 <= v < self.vertices@.len() ==> (#[trigger] self.vertices@[v]).position
                        == old(self).vertices@[v].position && self.vertices@[v].deleted == old(
                        self,
                    ).vertices@[v].deleted,
                forall|v: int|
                    0 <= v < self.vertices@.len() && old(self).vertices@[v].half_edge is Some
                        ==> #[trigger] self.vertices@[v] == old(self).vertices@[v],
                forall|v: int|
                    0 <= v < self.vertices@.len() && !vertices@.subrange(0, k as int).contains(
                        v as usize,
                    ) ==> #[trigger] self.vertices@[v] == old(self).vertices@[v],
                forall|j: int|
                    0 <= j < k ==> (#[trigger] self.vertices@[vertices@[j] as int]).half_edge
                        is Some,
                forall|v: int|
                    0 <= v < self.vertices@.len() && old(self).vertices@[v].half_edge is None
                        ==> ((#[trigger] self.vertices@[v]).half_edge matches Some(h)
                        ==> first_new <= h < self.half_edges@.len()
                        && self.half_edges@[h as int].from_vertex == v),
                forall|v: int|
                    0 <= v < self.vertices@.len() ==> ((#[trigger] self.vertices@[v]).half_edge
                        matches Some(h) ==> h < self.half_edges@.len()),
        {
            let vert_index = vertices[k];
            let half_edge_index = first_new + k;
            let prev_k = if k == 0 { n - 1 } else { k - 1 };
            let next_k = if k == n - 1 { 0 } else { k + 1 };
            proof {
                if k == 0 {
                    vstd::arithmetic::div_mod::lemma_small_mod((n - 1) as nat, n as nat);
                } else {
                    vstd::arithmetic::div_mod::lemma_mod_multiples_vanish(
                        1, k - 1, n as int);
                    vstd::arithmetic::div_mod::lemma_small_mod((k - 1) as nat, n as nat);
                }
                assert((k + n - 1) % (n as int) == prev_k);
                if k == n - 1 {
                    vstd::arithmetic::div_mod::lemma_mod_self_0(n as int);
                } else {
                    vstd::arithmetic::div_mod::lemma_small_mod((k + 1) as nat, n as nat);
                }
                assert((k + 1) % (n as int) == next_k);
            }
            let previous = first_new + prev_k;
            let next = first_new + next_k;
            self.half_edges.push(
                HalfEdge {
                    from_vertex: vert_index,
                    previous: Some(previous),
                    next: Some(next),
                    twin: None,
                    face: Some(index),
                },
            );
            // If this is the first half-edge attached to the vertex,
            // point the vertex at this half-edge.
            if self.vertices[vert_index].half_edge.is_none() {
                let updated = Vertex { half_edge: Some(half_edge_index), ..self.vertices[
                    vert_index] };
                self.vertices.set(vert_index, updated);
                proof {
                    assert(vertices@.subrange(0, k + 1)[k as int] == vertices@[k as int]);
                    assert(vertices@.subrange(0, k + 1).contains(vertices@[k as int]));
                }
            }
            proof {
                assert forall|v: int|
                    0 <= v < self.vertices@.len() && !vertices@.subrange(0, k + 1).contains(
                        v as usize,
                    ) implies #[trigger] self.vertices@[v] == old(self).vertices@[v] by {
                    assert(!vertices@.subrange(0, k as int).contains(v as usize)) by {
                        if vertices@.subrange(0, k as int).contains(v as usize) {
                            let j = choose|j: int|
                                0 <= j < k && vertices@.subrange(0, k as int)[j] == v as usize;
                            assert(vertices@.subrange(0, k + 1)[j] == v as usize);
                        }
                    }
                }
            }
        }

        // Create the face itself.
        let face = Face::new(first_new);
        self.faces.push(face);
        proof {
            self.spans@ = self.spans@.push((first_new as int, n as int));
        }

        proof {
            assert(vertices@.subrange(0, n as int) =~= vertices@);
            assert(self.faces@ =~= old(self).faces@.push(
                Face { half_edge: first_new as usize, normal: None },
            ));
            assert(self.face_vertices(index as int) =~= vertices@);
            assert forall|f: int| 0 <= f < self.faces@.len() implies self.wf_face(f) by {
                if f < old(self).faces@.len() {
                    assert(old(self).wf_face(f));
                    let s = old(self).face_start(f);
                    let m = old(self).face_degree(f);
                    assert forall|i: int| 0 <= i < m implies (#[trigger] self.half_edges@[s + i])
                        == old(self).half_edges@[s + i] by {}
                } else {
                    assert(f == index);
                    assert(self.face_start(f) == first_new as int);
                    assert(self.face_degree(f) == n as int);
                }
            }
            assert forall|e: int|
                0 <= e < self.half_edges@.len() implies (#[trigger] self.half_edges@[e]).from_vertex
                < self.vertices@.len() by {
                if e < first_new {
                    assert(self.half_edges@[e] == old(self).half_edges@[e]);
                } else {
                    assert(self.half_edges@[e].from_vertex == vertices@[e - first_new]);
                }
            }
            assert(self.wf());
        }
        index
    }

    pub fn all_vertices(&self) -> (r: &Vec<Vertex>)
        ensures
            r == &self.vertices,
    {
        &self.vertices
    }

    pub fn all_faces(&self) -> (r: &Vec<Face>)
        ensures
            r == &self.faces,
    {
        &self.faces
    }

    /// An iterator over the half-edges around face `face`, in boundary order.
    pub fn face_edge_iter(&self, face: usize) -> (r: FaceEdgeIter)
        requires
            self.wf(),
            face < self.faces@.len(),
        ensures
            r.wf_for(*self, face as int),
            r.emitted@ == 0,
            r.face@ == face as int,
    {
        FaceEdgeIter::new(self, face)
    }

    /// The vertex indices around face `face`, in boundary order.
    pub fn face_vertex_list(&self, face: usize) -> (r: Vec<usize>)
        requires
            self.wf(),
            face < self.faces@.len(),
        ensures
            r@ == self.face_vertices(face as int),
            r@.len() == self.face_degree(face as int),
            forall|k: int| 0 <= k < r@.len() ==> #[trigger] r@[k] < self.vertices@.len(),
    {
        let ghost s = self.face_start(face as int);
        let ghost n = self.face_degree(face as int);
        let mut iter = self.face_edge_iter(face);
        let mut result: Vec<usize> = Vec::new();
        loop
            invariant
                self.wf(),
                face < self.faces@.len(),
                iter.wf_for(*self, face as int),
                iter.face@ == face as int,
                s == self.face_start(face as int),
                n == self.face_degree(face as int),
                result@.len() == iter.emitted@,
                forall|k: int|
                    0 <= k < result@.len() ==> #[trigger] result@[k] == self.half_edges@[s
                        + k].from_vertex,
            ensures
                result@.len() == n,
                forall|k: int|
                    0 <= k < result@.len() ==> #[trigger] result@[k] == self.half_edges@[s
                        + k].from_vertex,
            decreases n - iter.emitted@,
        {
            let e = match iter.next_edge(self) {
                Some(e) => e,
                None => {
                    break;
                },
            };
            proof {
                assert(self.wf_face(face as int));
            }
            result.push(self.half_edges[e].from_vertex);
        }
        proof {
            assert(result@ =~= self.face_vertices(face as int));
            assert(self.wf_face(face as int));
        }
        result
    }

    /// The vertex positions around face `face`, in boundary order.
    pub fn get_face_positions(&self, face: usize) -> (r: Vec<Vec3>)
        requires
            self.wf(),
            face < self.faces@.len(),
        ensures
            r@ == self.face_positions(face as int),
            r@.len() == self.face_degree(face as int),
            forall|k: int| 0 <= k < r@.len() ==> (#[trigger] r@[k]).in_bounds(),
    {
        let verts = self.face_vertex_list(face);
        let mut result: Vec<Vec3> = Vec::new();
        let count = verts.len();
        for k in 0..count
            invariant
                self.wf(),
                face < self.faces@.len(),
                count == verts@.len(),
                verts@ == self.face_vertices(face as int),
                forall|j: int| 0 <= j < count ==> #[trigger] verts@[j] < self.vertices@.len(),
                result@.len() == k,
                forall|j: int|
                    0 <= j < k ==> #[trigger] result@[j] == self.vertices@[verts@[j] as int].position,
        {
            result.push(self.vertices[verts[k]].position);
        }
        proof {
            assert(result@ =~= self.face_positions(face as int));
        }
        result
    }

    /// The cross product of the two edge vectors spanned by the first three
    /// boundary vertices of face `f` (`b` is the middle vertex): the
    /// unnormalized normal direction.
    pub open spec fn face_cross(self, f: int) -> (int, int, int) {
        let s = self.face_start(f);
        let a = self.vertices@[self.half_edges@[s].from_vertex as int].position;
        let b = self.vertices@[self.half_edges@[s + 1].from_vertex as int].position;
        let c = self.vertices@[self.half_edges@[s + 2].from_vertex as int].position;
        cross_of_triple(a, b, c)
    }

    /// A face is degenerate when its cross product is shorter than one
    /// `SCALE` of area (squared length below `SCALE * SCALE`). For such
    /// sliver faces the truncating normalization could quantize the unit
    /// normal arbitrarily badly, and a corrupt normal would flow silently
    /// into the binary container; they are rejected fail-fast instead.
    pub open spec fn face_degenerate(self, f: int) -> bool {
        let (nx, ny, nz) = self.face_cross(f);
        nx * nx + ny * ny + nz * nz < SCALE * SCALE
    }

    /// The fixed-point unit normal of face `f`: the cross product scaled by
    /// `SCALE` and divided (truncating toward zero) by its euclidean length
    /// rounded down to an integer.
    pub open spec fn computed_normal(self, f: int) -> Vec3 {
        let (nx, ny, nz) = self.face_cross(f);
        let len = isqrt((nx * nx + ny * ny + nz * nz) as nat) as int;
        Vec3 {
            x: tdiv(nx * SCALE, len) as i64,
            y: tdiv(ny * SCALE, len) as i64,
            z: tdiv(nz * SCALE, len) as i64,
        }
    }

    /// The normal face `f` carries once normals have been computed: the
    /// cached one if present, the freshly computed one otherwise.
    pub open spec fn face_normal_after(self, f: int) -> Vec3 {
        match self.faces@[f].normal {
            Some(nv) => nv,
            None => self.computed_normal(f),
        }
    }

    /// Relates a mesh to the same mesh after one `compute_face_normals`
    /// pass: topology, positions and back-references are untouched, and every
    /// face carries `face_normal_after` of the pre-state.
    pub open spec fn normals_computed_from(pre: Mesh, post: Mesh) -> bool {
        &&& post.vertices@ == pre.vertices@
        &&& post.half_edges@ == pre.half_edges@
        &&& post.spans@ == pre.spans@
        &&& post.faces@.len() == pre.faces@.len()
        &&& forall|f: int|
            0 <= f < post.faces@.len() ==> #[trigger] post.faces@[f] == (Face {
                half_edge: pre.faces@[f].half_edge,
                normal: Some(pre.face_normal_after(f)),
            })
    }

    /// Computes the unit normal of every face that has none cached yet, from
    /// the face's first three boundary vertices. Faces with a cached normal
    /// are skipped, so a second run changes nothing. Fails, leaving the mesh
    /// untouched, when a face without a normal is degenerate.
    pub fn compute_face_normals(&mut self) -> (r: Result<(), MeshError>)
        requires
            old(self).wf(),
        ensures
            match r {
                Ok(()) => {
                    &&& final(self).wf()
                    &&& Mesh::normals_computed_from(*old(self), *final(self))
                    &&& forall|f: int|
                        0 <= f < old(self).faces@.len() && old(self).faces@[f].normal is None
                            ==> !(#[trigger] old(self).face_degenerate(f))
                },
                Err(e) => {
                    &&& e == MeshError::DegenerateFace
                    &&& *final(self) == *old(self)
                    &&& exists|f: int|
                        0 <= f < old(self).faces@.len() && (#[trigger] old(
                            self,
                        ).faces@[f].normal) is None && old(self).face_degenerate(f)
                },
            },
    {
        let ghost pre = *self;
        // First pass: compute every missing normal without touching the mesh,
        // so that a degenerate face leaves the mesh unchanged.
        let mut new_normals: Vec<Vec3> = Vec::new();
        let face_count = self.faces.len();
        for f in 0..face_count
            invariant
                *self == pre,
                self.wf(),
                face_count == self.faces@.len(),
                new_normals@.len() == f,
                forall|g: int|
                    0 <= g < f ==> #[trigger] new_normals@[g] == self.face_normal_after(g)
                        && new_normals@[g].unit_bounds(),
                forall|g: int|
                    0 <= g < f && self.faces@[g].normal is None ==> !(#[trigger] self.face_degenerate(
                        g,
                    )),
        {
            let face = self.faces[f];
            match face.normal {
                Some(nv) => {
                    new_normals.push(nv);
                },
                None => {
                    let nv = match self.face_normal_of(f) {
                        Some(nv) => nv,
                        None => {
                            return Err(MeshError::DegenerateFace);
                        },
                    };
                    new_normals.push(nv);
                },
            }
        }
        // Second pass: store the normals.
        for f in 0..face_count
            invariant
                face_count == self.faces@.len(),
                self.vertices@ == pre.vertices@,
                self.half_edges@ == pre.half_edges@,
                self.spans@ == pre.spans@,
                self.faces@.len() == pre.faces@.len(),
                pre.wf(),
                new_normals@.len() == face_count,
                forall|g: int|
                    0 <= g < face_count ==> #[trigger] new_normals@[g] == pre.face_normal_after(g)
                        && new_normals@[g].unit_bounds(),
                forall|g: int|
                    0 <= g < f ==> #[trigger] self.faces@[g] == (Face {
                        half_edge: pre.faces@[g].half_edge,
                        normal: Some(pre.face_normal_after(g)),
                    }),
                forall|g: int|
                    f <= g < face_count ==> #[trigger] self.faces@[g] == pre.faces@[g],
        {
            let updated = Face { normal: Some(new_normals[f]), ..self.faces[f] };
            self.faces.set(f, updated);
        }
        proof {
            assert forall|f: int| 0 <= f < self.faces@.len() implies self.wf_face(f) by {
                assert(pre.wf_face(f));
            }
            assert forall|f: int|
                0 <= f < self.faces@.len() implies ((#[trigger] self.faces@[f]).normal matches Some(
                nv,
            ) ==> nv.unit_bounds()) by {
                assert(new_normals@[f] == pre.face_normal_after(f));
                assert(new_normals@[f].unit_bounds());
            }
            assert(self.wf());
        }
        Ok(())
    }

    /// The unit normal of face `f` computed from its first three boundary
    /// vertices, or `None` when the face is degenerate (its cross product
    /// shorter than the sliver threshold). Reads the mesh only.
    fn face_normal_of(&self, f: usize) -> (r: Option<Vec3>)
        requires
            self.wf(),
            f < self.faces@.len(),
        ensures
            match r {
                Some(nv) => {
                    &&& !self.face_degenerate(f as int)
                    &&& nv == self.computed_normal(f as int)
                    &&& nv.unit_bounds()
                },
                None => self.face_degenerate(f as int),
            },
    {
        let ghost s = self.face_start(f as int);
        let he_count = self.half_edges.len();
        proof {
            assert(self.half_edges@.len() == he_count);
            assert(self.wf_face(f as int));
            assert(s + self.face_degree(f as int) <= he_count);
            let n = self.face_degree(f as int);
            vstd::arithmetic::div_mod::lemma_small_mod(1nat, n as nat);
            vstd::arithmetic::div_mod::lemma_small_mod(2nat, n as nat);
            assert(self.half_edges@[s + 0].next == Some((s + 1) as usize));
            assert(self.half_edges@[s + 1].next == Some((s + 2) as usize));
            assert(self.half_edges@[s + 0].from_vertex < self.vertices@.len());
            assert(self.half_edges@[s + 1].from_vertex < self.vertices@.len());
            assert(self.half_edges@[s + 2].from_vertex < self.vertices@.len());
            assert(self.vertices@[self.half_edges@[s + 0].from_vertex as int].position.in_bounds());
            assert(self.vertices@[self.half_edges@[s + 1].from_vertex as int].position.in_bounds());
            assert(self.vertices@[self.half_edges@[s + 2].from_vertex as int].position.in_bounds());
        }
        let e1 = self.faces[f].half_edge;
        proof {
            assert(e1 as int == s + 0);
        }
        let e2 = self.half_edges[e1].next.unwrap();
        proof {
            assert(e2 as int == s + 1);
        }
        let e3 = self.half_edges[e2].next.unwrap();
        proof {
            assert(e3 as int == s + 2);
        }

        let a = self.vertices[self.half_edges[e1].from_vertex].position;
        let b = self.vertices[self.half_edges[e2].from_vertex].position;
        let c = self.vertices[self.half_edges[e3].from_vertex].position;

        let bax = (a.x - b.x) as i128;
        let bay = (a.y - b.y) as i128;
        let baz = (a.z - b.z) as i128;
        let bcx = (c.x - b.x) as i128;
        let bcy = (c.y - b.y) as i128;
        let bcz = (c.z - b.z) as i128;

        proof {
            lemma_cross_term_bounds(bax as int, bay as int, baz as int, bcx as int, bcy as int,
                bcz as int);
        }
        let nx = bcy * baz - bcz * bay;
        let ny = bcz * bax - bcx * baz;
        let nz = bcx * bay - bcy * bax;
        proof {
            reveal(cross_of_triple);
            assert((nx as int, ny as int, nz as int) == self.face_cross(f as int));
        }

        proof {
            lemma_square_bound(nx as int);
            lemma_square_bound(ny as int);
            lemma_square_bound(nz as int);
        }
        let len2: u128 = ((nx * nx) as u128) + ((ny * ny) as u128) + ((nz * nz) as u128);
        if len2 < 1000000000000u128 {
            proof {
                assert(self.face_degenerate(f as int));
            }
            return None;
        }

        let len: u64 = isqrt_u128(len2);
        proof {
            assert(len >= SCALE) by {
                if len < SCALE {
                    assert((len as int + 1) * (len as int + 1) <= (SCALE as int) * (
                    SCALE as int)) by (nonlinear_arith)
                        requires
                            0 <= len,
                            len as int + 1 <= SCALE as int,
                    ;
                    assert((SCALE as int) * (SCALE as int) == 1000000000000int);
                }
            }
            lemma_component_le_sqrt(nx as int, len2 as nat, len as nat);
            lemma_component_le_sqrt(ny as int, len2 as nat, len as nat);
            lemma_component_le_sqrt(nz as int, len2 as nat, len as nat);
        }
        let qx = tdiv_i128(nx * (SCALE as i128), len as i128);
        let qy = tdiv_i128(ny * (SCALE as i128), len as i128);
        let qz = tdiv_i128(nz * (SCALE as i128), len as i128);
        proof {
            lemma_scaled_component_bound(nx as int, len as int);
            lemma_scaled_component_bound(ny as int, len as int);
            lemma_scaled_component_bound(nz as int, len as int);
        }
        Some(Vec3 { x: qx as i64, y: qy as i64, z: qz as i64 })
    }
}

/// A `Vec`'s view never holds more than `usize::MAX` elements.
proof fn lemma_vec_len_bound<T>(v: &Vec<T>)
    ensures
        v@.len() <= usize::MAX,
{
    broadcast use vstd::std_specs::vec::axiom_spec_len;

    assert(vstd::std_specs::vec::spec_vec_len(v) == v@.len());
}

/// The half-edge reached from `e` by following `next` exactly `k` times.
pub open spec fn follow_next(m: Mesh, e: int, k: nat) -> int
    decreases k,
{
    if k == 0 {
        e
    } else {
        m.half_edges@[follow_next(m, e, (k - 1) as nat)].next->0 as int
    }
}

/// Following `next` from a face's first half-edge stays within the face's
/// half-edge block: after `k` steps the walk stands at offset `k % degree`.
proof fn lemma_follow_next_in_span(m: Mesh, f: int, k: nat)
    requires
        m.wf(),
        0 <= f < m.faces@.len(),
        k <= m.face_degree(f),
    ensures
        follow_next(m, m.face_start(f), k) == m.face_start(f) + (k % m.face_degree(f) as nat),
    decreases k,
{
    let s = m.face_start(f);
    let n = m.face_degree(f);
    assert(m.wf_face(f));
    lemma_vec_len_bound(&m.half_edges);
    if k == 0 {
        vstd::arithmetic::div_mod::lemma_small_mod(0nat, n as nat);
    } else {
        lemma_follow_next_in_span(m, f, (k - 1) as nat);
        vstd::arithmetic::div_mod::lemma_small_mod((k - 1) as nat, n as nat);
        let i = (k - 1) as int;
        assert(follow_next(m, s, (k - 1) as nat) == s + i);
        assert(m.half_edges@[s + i].next == Some((s + ((i + 1) % n)) as usize));
        if k == n {
            vstd::arithmetic::div_mod::lemma_mod_self_0(n);
            assert((i + 1) % n == 0);
            assert(k % (n as nat) == 0);
        } else {
            vstd::arithmetic::div_mod::lemma_small_mod(k, n as nat);
            assert((i + 1) % n == k as int);
        }
        assert((s + ((i + 1) % n)) as usize as int == s + ((i + 1) % n)) by {
            vstd::arithmetic::div_mod::lemma_mod_bound(i + 1, n);
        }
    }
}

/// Half-edge loop closure: for every face, following `next` exactly
/// (face degree) times from the face's stored half-edge returns to that
/// half-edge, and `previous` is the exact left inverse of `next` within
/// the loop.
pub proof fn lemma_face_loop_closure(m: Mesh, f: int)
    requires
        m.wf(),
        0 <= f < m.faces@.len(),
    ensures
        follow_next(m, m.faces@[f].half_edge as int, m.face_degree(f) as nat) == m.faces@[
        f].half_edge as int,
        forall|i: int|
            0 <= i < m.face_degree(f) ==> #[trigger] m.half_edges@[m.half_edges@[m.face_start(f)
                + i].next->0 as int].previous == Some((m.face_start(f) + i) as usize),
{
    let s = m.face_start(f);
    let n = m.face_degree(f);
    assert(m.wf_face(f));
    lemma_follow_next_in_span(m, f, n as nat);
    vstd::arithmetic::div_mod::lemma_mod_self_0(n);
    assert forall|i: int|
        0 <= i < n implies #[trigger] m.half_edges@[m.half_edges@[m.face_start(f)
        + i].next->0 as int].previous == Some((m.face_start(f) + i) as usize) by {
        lemma_vec_len_bound(&m.half_edges);
        if i < n - 1 {
            vstd::arithmetic::div_mod::lemma_small_mod((i + 1) as nat, n as nat);
            assert(m.half_edges@[s + i].next == Some((s + (i + 1)) as usize));
            assert(m.half_edges@[s + (i + 1)].previous == Some(
                (s + ((i + 1 + n - 1) % n)) as usize,
            ));
            assert((i + 1 + n - 1) % n == i) by {
                vstd::arithmetic::div_mod::lemma_mod_multiples_vanish(1, i, n);
                vstd::arithmetic::div_mod::lemma_small_mod(i as nat, n as nat);
            }
        } else {
            vstd::arithmetic::div_mod::lemma_mod_self_0(n);
            assert((i + 1) % n == 0);
            assert(m.half_edges@[s + i].next == Some((s + 0) as usize));
            assert(m.half_edges@[s + 0].previous == Some((s + ((0 + n - 1) % n)) as usize));
            assert((0 + n - 1) % n == n - 1) by {
                vstd::arithmetic::div_mod::lemma_small_mod((n - 1) as nat, n as nat);
            }
        }
    }
}

/// Normal stability: a mesh whose normals have been computed is a fixed
/// point, so computing face normals a second time changes nothing.
pub proof fn lemma_normal_stability(m0: Mesh, m1: Mesh, m2: Mesh)
    requires
        Mesh::normals_computed_from(m0, m1),
        Mesh::normals_computed_from(m1, m2),
    ensures
        m2.vertices@ == m1.vertices@,
        m2.half_edges@ == m1.half_edges@,
        m2.faces@ == m1.faces@,
{
    assert forall|f: int| 0 <= f < m2.faces@.len() implies #[trigger] m2.faces@[f]
        == m1.faces@[f] by {
        assert(m1.faces@[f] == (Face {
            half_edge: m0.faces@[f].half_edge,
            normal: Some(m0.face_normal_after(f)),
        }));
        assert(m1.face_normal_after(f) == m0.face_normal_after(f));
    }
    assert(m2.faces@ =~= m1.faces@);
}

/// One normalized component, squared: with `|n| <= len` and
/// `q = (|n| * SCALE) / len` truncated, `q^2 * len^2` is within
/// `2 * SCALE * len^2` below `n^2 * SCALE^2`, and never above it.
proof fn lemma_component_square(n: int, len: int, q: int)
    requires
        1 <= len,
        -len <= n <= len,
        q == tdiv(n * SCALE, len),
    ensures
        q * q * (len * len) <= (n * n) * (SCALE * SCALE),
        q * q * (len * len) >= (n * n) * (SCALE * SCALE) - 2 * SCALE * (len * len),
{
    let m = if n < 0 {
        -n
    } else {
        n
    };
    let p = m * SCALE;
    assert(p >= 0) by (nonlinear_arith)
        requires
            p == m * SCALE,
            m >= 0,
            SCALE >= 1,
    ;
    let qm = p / len;
    vstd::arithmetic::div_mod::lemma_fundamental_div_mod(p, len);
    let r = p % len;
    assert(q * q == qm * qm) by (nonlinear_arith)
        requires
            (n >= 0 && q == qm) || (n < 0 && q == -qm),
    ;
    assert((qm * len) * (qm * len) <= p * p && (qm * len) * (qm * len) >= p * p - 2 * p * r)
        by (nonlinear_arith)
        requires
            p == qm * len + r,
            0 <= r < len,
            qm >= 0,
            p >= 0,
    ;
    assert(p * p == (m * m) * (SCALE * SCALE)) by (nonlinear_arith)
        requires
            p == m * SCALE,
    ;
    assert(m * m == n * n) by (nonlinear_arith)
        requires
            m == n || m == -n,
    ;
    assert((qm * len) * (qm * len) == (qm * qm) * (len * len)) by (nonlinear_arith);
    assert(2 * p * r <= 2 * SCALE * (len * len)) by (nonlinear_arith)
        requires
            p == m * SCALE,
            0 <= m <= len,
            0 <= r < len,
            SCALE > 0,
    ;
}

/// Normal stability, magnitude: for any non-degenerate face, the computed
/// fixed-point normal is a unit vector up to quantization; its squared
/// magnitude lies within `6 * SCALE` below the exact unit square and
/// never above three unit squares.
pub proof fn lemma_computed_normal_magnitude(m: Mesh, f: int)
    requires
        m.wf(),
        0 <= f < m.faces@.len(),
        !m.face_degenerate(f),
        ({
            let (nx, ny, nz) = m.face_cross(f);
            -2000000000000000000 <= nx <= 2000000000000000000
                && -2000000000000000000 <= ny <= 2000000000000000000
                && -2000000000000000000 <= nz <= 2000000000000000000
        }),
    ensures
        ({
            let nv = m.computed_normal(f);
            let mag2 = nv.x * nv.x + nv.y * nv.y + nv.z * nv.z;
            SCALE * SCALE - 6 * SCALE <= mag2 <= SCALE * SCALE + 2 * SCALE + 1
        }),
{
    let (nx, ny, nz) = m.face_cross(f);
    let big = (nx * nx + ny * ny + nz * nz) as nat;
    assert(nx * nx >= 0 && ny * ny >= 0 && nz * nz >= 0) by (nonlinear_arith);
    assert(big >= (SCALE * SCALE) as nat);
    let len = isqrt(big) as int;
    assert(isqrt(big) * isqrt(big) <= big < (isqrt(big) + 1) * (isqrt(big) + 1)) by {
        lemma_isqrt_exists(big);
    }
    // A non-degenerate cross is at least one unit of area long.
    assert(len >= SCALE) by {
        if len < SCALE {
            assert((len + 1) * (len + 1) <= (SCALE as int) * (SCALE as int))
                by (nonlinear_arith)
                requires
                    0 <= len,
                    len + 1 <= SCALE as int,
            ;
        }
    }
    assert(len >= 1);
    lemma_component_le_sqrt(nx, big, len as nat);
    lemma_component_le_sqrt(ny, big, len as nat);
    lemma_component_le_sqrt(nz, big, len as nat);
    let qx = tdiv(nx * SCALE, len);
    let qy = tdiv(ny * SCALE, len);
    let qz = tdiv(nz * SCALE, len);
    lemma_component_square(nx, len, qx);
    lemma_component_square(ny, len, qy);
    lemma_component_square(nz, len, qz);
    let mag2 = qx * qx + qy * qy + qz * qz;
    let s2 = SCALE * SCALE;
    // Upper bound: mag2 * len^2 <= big * SCALE^2 < (len + 1)^2 * SCALE^2,
    // so mag2 <= SCALE^2 * (1 + 2/len + 1/len^2) <= 3 * SCALE^2.
    assert(mag2 * (len * len) <= big * s2) by (nonlinear_arith)
        requires
            qx * qx * (len * len) <= (nx * nx) * s2,
            qy * qy * (len * len) <= (ny * ny) * s2,
            qz * qz * (len * len) <= (nz * nz) * s2,
            mag2 == qx * qx + qy * qy + qz * qz,
            big == nx * nx + ny * ny + nz * nz,
            s2 >= 0,
    ;
    assert(big * s2 <= ((len * len) + 2 * len) * s2) by (nonlinear_arith)
        requires
            big < ((len + 1) * (len + 1)) as nat,
            s2 >= 0,
    ;
    assert(mag2 <= s2 + 2 * SCALE + 1) by (nonlinear_arith)
        requires
            mag2 * (len * len) <= ((len * len) + 2 * len) * s2,
            len >= SCALE,
            SCALE == 1000000,
            s2 == SCALE * SCALE,
    ;
    // Lower bound: mag2 * len^2 >= big * SCALE^2 - 6 * SCALE * len^2
    // and big >= len^2, so mag2 >= SCALE^2 - 6 * SCALE.
    assert(mag2 * (len * len) >= big * s2 - 6 * SCALE * (len * len)) by (nonlinear_arith)
        requires
            qx * qx * (len * len) >= (nx * nx) * s2 - 2 * SCALE * (len * len),
            qy * qy * (len * len) >= (ny * ny) * s2 - 2 * SCALE * (len * len),
            qz * qz * (len * len) >= (nz * nz) * s2 - 2 * SCALE * (len * len),
            mag2 == qx * qx + qy * qy + qz * qz,
            big == nx * nx + ny * ny + nz * nz,
    ;
    assert(mag2 >= s2 - 6 * SCALE) by (nonlinear_arith)
        requires
            mag2 * (len * len) >= big * s2 - 6 * SCALE * (len * len),
            big >= (len * len) as nat,
            len >= 1,
            s2 == SCALE * SCALE,
            SCALE > 0,
    ;
    // The computed normal's components are exactly the three quotients.
    assert(m.computed_normal(f).x == qx && m.computed_normal(f).y == qy && m.computed_normal(
        f,
    ).z == qz) by {
        lemma_scaled_component_bound(nx, len);
        lemma_scaled_component_bound(ny, len);
        lemma_scaled_component_bound(nz, len);
    }
}

/// Every nonnegative integer has an integer square root.
proof fn lemma_isqrt_exists(v: nat)
    ensures
        isqrt(v) * isqrt(v) <= v < (isqrt(v) + 1) * (isqrt(v) + 1),
    decreases v,
{
    if v == 0 {
        assert(exists|r: nat| #[trigger] (r * r) <= v && v < (r + 1) * (r + 1)) by {
            assert(0 * 0 <= v && v < (0 + 1) * (0 + 1)) by (nonlinear_arith)
                requires
                    v == 0,
            ;
        }
    } else {
        lemma_isqrt_exists((v - 1) as nat);
        let r = isqrt((v - 1) as nat);
        if (r + 1) * (r + 1) <= v {
            assert((r + 1) * (r + 1) <= v < (r + 2) * (r + 2)) by (nonlinear_arith)
                requires
                    r * r <= v - 1 < (r + 1) * (r + 1),
                    (r + 1) * (r + 1) <= v,
                    v == v - 1 + 1,
            ;
            assert(exists|q: nat| #[trigger] (q * q) <= v && v < (q + 1) * (q + 1)) by {
                assert((r + 1) * (r + 1) <= v && v < (r + 1 + 1) * (r + 1 + 1));
            }
        } else {
            assert(exists|q: nat| #[trigger] (q * q) <= v && v < (q + 1) * (q + 1)) by {
                assert(r * r <= v && v < (r + 1) * (r + 1));
            }
        }
    }
    let w = choose|q: nat| #[trigger] (q * q) <= v && v < (q + 1) * (q + 1);
    lemma_isqrt_unique_pub(v, w);
}

/// The integer square root is unique.
proof fn lemma_isqrt_unique_pub(v: nat, r: nat)
    requires
        r * r <= v < (r + 1) * (r + 1),
    ensures
        isqrt(v) == r,
{
    assert(exists|q: nat| #[trigger] (q * q) <= v && v < (q + 1) * (q + 1)) by {
        assert(r * r <= v && v < (r + 1) * (r + 1));
    }
    let q = isqrt(v);
    assert(q * q <= v < (q + 1) * (q + 1));
    if q < r {
        assert((q + 1) * (q + 1) <= r * r) by (nonlinear_arith)
            requires
                q < r,
        ;
    } else if r < q {
        assert((r + 1) * (r + 1) <= q * q) by (nonlinear_arith)
            requires
                r < q,
        ;
    }
}

/// Iterator that produces the half-edge indices around one face, in
/// boundary order, stopping when the loop returns to its first edge.
pub struct FaceEdgeIter {
    pub first_edge: usize,
    pub current_edge: Option<usize>,
    /// The face being iterated.
    pub face: Ghost<int>,
    /// How many edges have been produced so far.
    pub emitted: Ghost<int>,
}

impl FaceEdgeIter {
    /// A valid iterator state over face `f` of mesh `m`: either the next
    /// edge to produce is `face_start + emitted`, or the loop is exhausted.
    pub open spec fn wf_for(self, m: Mesh, f: int) -> bool {
        &&& m.wf()
        &&& 0 <= f < m.faces@.len()
        &&& self.face@ == f
        &&& self.first_edge == m.face_start(f)
        &&& 0 <= self.emitted@ <= m.face_degree(f)
        &&& match self.current_edge {
            Some(e) => self.emitted@ < m.face_degree(f) && e == m.face_start(f) + self.emitted@,
            None => self.emitted@ == m.face_degree(f),
        }
    }

    pub fn new(mesh: &Mesh, face: usize) -> (r: FaceEdgeIter)
        requires
            mesh.wf(),
            face < mesh.faces@.len(),
        ensures
            r.wf_for(*mesh, face as int),
            r.emitted@ == 0,
            r.face@ == face as int,
    {
        proof {
            assert(mesh.wf_face(face as int));
        }
        let first_edge = mesh.faces[face].half_edge;
        FaceEdgeIter {
            first_edge,
            current_edge: Some(first_edge),
            face: Ghost(face as int),
            emitted: Ghost(0),
        }
    }

    /// Steps to `next_edge`, but marks the iteration finished when the loop
    /// has come back to the first edge.
    pub fn advance(&mut self, next_edge: Option<usize>)
        ensures
            final(self).first_edge == old(self).first_edge,
            final(self).face@ == old(self).face@,
            final(self).emitted@ == old(self).emitted@,
            final(self).current_edge == (match next_edge {
                Some(e) => if e == old(self).first_edge {
                    None
                } else {
                    Some(e)
                },
                None => None,
            }),
    {
        self.current_edge = match next_edge {
            Some(edge) => if edge == self.first_edge {
                None
            } else {
                Some(edge)
            },
            None => None,
        };
    }

    /// Produces the next half-edge index of the boundary loop, or `None`
    /// when every edge has been produced once.
    pub fn next_edge(&mut self, mesh: &Mesh) -> (r: Option<usize>)
        requires
            old(self).wf_for(*mesh, old(self).face@),
        ensures
            final(self).wf_for(*mesh, old(self).face@),
            final(self).face@ == old(self).face@,
            match r {
                Some(e) => {
                    &&& old(self).emitted@ < mesh.face_degree(old(self).face@)
                    &&& e == mesh.face_start(old(self).face@) + old(self).emitted@
                    &&& final(self).emitted@ == old(self).emitted@ + 1
                },
                None => {
                    &&& old(self).emitted@ == mesh.face_degree(old(self).face@)
                    &&& *final(self) == *old(self)
                },
            },
    {
        let ghost f = self.face@;
        let ghost s = mesh.face_start(f);
        let ghost n = mesh.face_degree(f);
        let ghost i = self.emitted@;
        let he_count = mesh.half_edges.len();
        proof {
            assert(mesh.wf_face(f));
            assert(s + n <= he_count);
        }
        match self.current_edge {
            Some(index) => {
                proof {
                    assert(mesh.wf_face(f));
                    assert(mesh.half_edges@[s + i].next == Some((s + ((i + 1) % n)) as usize));
                    if i + 1 < n {
                        vstd::arithmetic::div_mod::lemma_small_mod((i + 1) as nat, n as nat);
                    } else {
                        vstd::arithmetic::div_mod::lemma_mod_self_0(n);
                    }
                }
                let current_next = mesh.half_edges[index].next;
                self.advance(current_next);
                proof {
                    self.emitted@ = i + 1;
                }
                Some(index)
            },
            None => None,
        }
    }
}

/// The fan triangulation of a convex `n`-gon: for each of the `n - 2`
/// triangles, the face-local corner indices `0`, `i + 1`, `i + 2`.
pub open spec fn fan_indices(n: int) -> Seq<usize>
    decreases n,
{
    if n <= 2 {
        Seq::empty()
    } else {
        fan_indices(n - 1).push(0usize).push((n - 2) as usize).push((n - 1) as usize)
    }
}

/// One unfolding step of `fan_indices`.
proof fn lemma_fan_indices_step(n: int)
    requires
        3 <= n,
    ensures
        fan_indices(n) == fan_indices(n - 1).push(0usize).push((n - 2) as usize).push(
            (n - 1) as usize,
        ),
{
}

/// A fan triangulation of an `n`-gon has `3 * (n - 2)` corner indices, each
/// below `n`.
pub proof fn lemma_fan_indices_len(n: int)
    requires
        2 <= n,
    ensures
        fan_indices(n).len() == 3 * (n - 2),
        forall|k: int| 0 <= k < fan_indices(n).len() ==> 0 <= #[trigger] fan_indices(n)[k] < n,
    decreases n,
{
    if n > 2 {
        lemma_fan_indices_len(n - 1);
        let prev = fan_indices(n - 1);
        assert forall|k: int|
            0 <= k < fan_indices(n).len() implies 0 <= #[trigger] fan_indices(n)[k] < n by {
            if k < prev.len() {
                assert(fan_indices(n)[k] == prev[k]);
                assert(0 <= prev[k] < n - 1);
            }
        }
    }
}

impl Mesh {
    /// The indices of `n` consecutively created vertices starting at
    /// `first`.
    pub open spec fn consecutive_vertices(first: int, n: int) -> Seq<usize> {
        Seq::new(n as nat, |k: int| (first + k) as usize)
    }

    /// The vertex index list of the `j`-th side quadrilateral of an
    /// extrusion: the two original boundary vertices of edge `j` and the two
    /// freshly created vertices above them, wound `old1, old2, new2, new1`.
    pub open spec fn side_quad(vs: Seq<usize>, first_new_vertex: int, j: int) -> Seq<usize> {
        let n = vs.len() as int;
        seq![
            vs[j],
            vs[(j + 1) % n],
            ((first_new_vertex + (j + 1) % n) as usize),
            ((first_new_vertex + j) as usize),
        ]
    }

    /// Every offset vertex of an extrusion of face `f` by `d` stays within
    /// the coordinate bound: the condition under which `extrude` succeeds.
    pub open spec fn extrude_ok(pre: Mesh, f: int, d: int) -> bool {
        forall|k: int|
            0 <= k < pre.face_degree(f) ==> (#[trigger] offset_along(
                pre.face_positions(f)[k],
                d,
                pre.faces@[f].normal->0,
            )).in_bounds()
    }

    /// Duplicates every boundary vertex of `face_index` offset by
    /// `extrude_dist` along the face's cached normal, builds one
    /// quadrilateral side face per original edge, and closes the solid with
    /// a new top face from the duplicated vertices. The original face is
    /// retained as the base of the prism shell. Returns the top face index.
    ///
    /// Fails, leaving the mesh untouched, when an offset vertex would leave
    /// the coordinate bound.
    pub fn extrude(&mut self, face_index: usize, extrude_dist: i64) -> (r: Result<
        usize,
        MeshError,
    >)
        requires
            old(self).wf(),
            face_index < old(self).faces@.len(),
            old(self).faces@[face_index as int].normal is Some,
            -MAX_COORD <= extrude_dist <= MAX_COORD,
            old(self).half_edges@.len() + 5 * old(self).face_degree(face_index as int)
                < usize::MAX,
        ensures
            Mesh::extrude_ok(*old(self), face_index as int, extrude_dist as int) ==> r is Ok,
            match r {
                Ok(top) => {
                    let pre = *old(self);
                    let post = *final(self);
                    let f = face_index as int;
                    let n = pre.face_degree(f);
                    let vs = pre.face_vertices(f);
                    let nrm = pre.faces@[f].normal->0;
                    let first_new_vertex = pre.vertices@.len() as int;
                    let first_new_face = pre.faces@.len() as int;
                    &&& post.wf()
                    // original entities are retained untouched
                    &&& post.faces@.len() == pre.faces@.len() + n + 1
                    &&& forall|g: int|
                        0 <= g < pre.faces@.len() ==> #[trigger] post.faces@[g] == pre.faces@[g]
                    &&& forall|g: int|
                        0 <= g < pre.faces@.len() ==> #[trigger] post.spans@[g] == pre.spans@[g]
                    &&& post.vertices@.len() == pre.vertices@.len() + n
                    &&& forall|v: int|
                        0 <= v < pre.vertices@.len() ==> (#[trigger] post.vertices@[v]).position
                            == pre.vertices@[v].position
                    // each duplicated vertex sits exactly `extrude_dist`
                    // along the normal above its original
                    &&& forall|k: int|
                        0 <= k < n ==> (#[trigger] post.vertices@[first_new_vertex + k]).position
                            == offset_along(pre.face_positions(f)[k], extrude_dist as int, nrm)
                    &&& post.half_edges@.len() == pre.half_edges@.len() + 5 * n
                    &&& forall|e: int|
                        0 <= e < pre.half_edges@.len() ==> #[trigger] post.half_edges@[e]
                            == pre.half_edges@[e]
                    // one side quad per original boundary edge
                    &&& forall|j: int|
                        0 <= j < n ==> #[trigger] post.face_degree(first_new_face + j) == 4
                    &&& forall|j: int|
                        0 <= j < n ==> #[trigger] post.face_vertices(first_new_face + j)
                            == Mesh::side_quad(vs, first_new_vertex, j)
                    // the new top face, built from the duplicated vertices
                    &&& top == first_new_face + n
                    &&& post.face_degree(top as int) == n
                    &&& post.face_vertices(top as int) == Mesh::consecutive_vertices(
                        first_new_vertex,
                        n,
                    )
                    // no new face carries a normal yet
                    &&& forall|g: int|
                        pre.faces@.len() <= g < post.faces@.len() ==> (#[trigger] post.faces@[g]).normal
                            is None
                },
                Err(e) => {
                    &&& e == MeshError::CoordinateOverflow
                    &&& *final(self) == *old(self)
                    &&& !Mesh::extrude_ok(*old(self), face_index as int, extrude_dist as int)
                },
            },
    {
        let ghost pre = *self;
        let ghost f = face_index as int;
        let normal = match self.faces[face_index].normal {
            Some(nv) => nv,
            None => {
                proof {
                    assert(false);
                }
                return Err(MeshError::CoordinateOverflow);
            },
        };

        let old_vertices = self.face_vertex_list(face_index);
        let n = old_vertices.len();

        // Compute all the offset positions first: a coordinate out of bounds
        // must leave the mesh untouched.
        let mut new_positions: Vec<Vec3> = Vec::new();
        for k in 0..n
            invariant
                *self == pre,
                pre.wf(),
                f == face_index as int,
                0 <= f < pre.faces@.len(),
                pre.faces@[f].normal == Some(normal),
                normal.unit_bounds(),
                -MAX_COORD <= extrude_dist <= MAX_COORD,
                n == pre.face_degree(f),
                old_vertices@ == pre.face_vertices(f),
                forall|j: int|
                    0 <= j < n ==> #[trigger] old_vertices@[j] < pre.vertices@.len(),
                new_positions@.len() == k,
                forall|j: int|
                    0 <= j < k ==> #[trigger] new_positions@[j] == offset_along(
                        pre.face_positions(f)[j],
                        extrude_dist as int,
                        normal,
                    ) && new_positions@[j].in_bounds(),
        {
            let p = self.vertices[old_vertices[k]].position;
            proof {
                assert(pre.face_positions(f)[k as int] == p);
                lemma_offset_term_bound(extrude_dist as int, normal.x as int);
                lemma_offset_term_bound(extrude_dist as int, normal.y as int);
                lemma_offset_term_bound(extrude_dist as int, normal.z as int);
            }
            let nx = (p.x as i128) + mul_div_scale(extrude_dist, normal.x);
            let ny = (p.y as i128) + mul_div_scale(extrude_dist, normal.y);
            let nz = (p.z as i128) + mul_div_scale(extrude_dist, normal.z);
            let limit = MAX_COORD as i128;
            if nx < -limit || nx > limit || ny < -limit || ny > limit || nz < -limit || nz
                > limit {
                proof {
                    assert(offset_along(pre.face_positions(f)[k as int], extrude_dist as int,
                        normal) == (Vec3 { x: nx as i64, y: ny as i64, z: nz as i64 }));
                    assert(!offset_along(pre.face_positions(f)[k as int], extrude_dist as int,
                        normal).in_bounds());
                    assert(!Mesh::extrude_ok(pre, f, extrude_dist as int));
                }
                return Err(MeshError::CoordinateOverflow);
            }
            new_positions.push(Vec3 { x: nx as i64, y: ny as i64, z: nz as i64 });
        }

        // Duplicate the boundary vertices at their offset positions.
        let ghost first_new_vertex = self.vertices@.len() as int;
        let mut new_vertices: Vec<usize> = Vec::new();
        for k in 0..n
            invariant
                pre.wf(),
                self.wf(),
                self.half_edges@ == pre.half_edges@,
                self.faces@ == pre.faces@,
                self.spans@ == pre.spans@,
                first_new_vertex == pre.vertices@.len(),
                self.vertices@.len() == first_new_vertex + k,
                forall|v: int|
                    0 <= v < pre.vertices@.len() ==> #[trigger] self.vertices@[v]
                        == pre.vertices@[v],
                n == pre.face_degree(f),
                new_positions@.len() == n,
                forall|j: int|
                    0 <= j < n ==> #[trigger] new_positions@[j] == offset_along(
                        pre.face_positions(f)[j],
                        extrude_dist as int,
                        normal,
                    ) && new_positions@[j].in_bounds(),
                new_vertices@.len() == k,
                forall|j: int|
                    0 <= j < k ==> #[trigger] new_vertices@[j] == (first_new_vertex + j) as usize,
                forall|j: int|
                    0 <= j < k ==> (#[trigger] self.vertices@[first_new_vertex + j]).position
                        == new_positions@[j],
        {
            let idx = self.add_vertex(new_positions[k]);
            new_vertices.push(idx);
        }

        // One quadrilateral side face per original boundary edge.
        proof {
            assert(pre.wf_face(f));
        }
        let ghost mid = *self;
        let ghost first_new_face = self.faces@.len() as int;
        let ghost first_new_edge = self.half_edges@.len() as int;
        let ghost vs = pre.face_vertices(f);
        for j in 0..n
            invariant
                pre.wf(),
                mid.wf(),
                self.wf(),
                f == face_index as int,
                0 <= f < pre.faces@.len(),
                n == pre.face_degree(f),
                3 <= n,
                vs == pre.face_vertices(f),
                old_vertices@ == vs,
                forall|q: int| 0 <= q < n ==> #[trigger] old_vertices@[q] < first_new_vertex,
                first_new_vertex == pre.vertices@.len(),
                first_new_face == pre.faces@.len(),
                first_new_edge == pre.half_edges@.len(),
                first_new_edge + 5 * n < usize::MAX,
                mid.vertices@.len() == first_new_vertex + n,
                mid.half_edges@ == pre.half_edges@,
                mid.faces@ == pre.faces@,
                mid.spans@ == pre.spans@,
                forall|v: int|
                    0 <= v < pre.vertices@.len() ==> #[trigger] mid.vertices@[v]
                        == pre.vertices@[v],
                forall|q: int|
                    0 <= q < n ==> (#[trigger] mid.vertices@[first_new_vertex + q]).position
                        == new_positions@[q],
                new_positions@.len() == n,
                forall|q: int|
                    0 <= q < n ==> #[trigger] new_positions@[q] == offset_along(
                        pre.face_positions(f)[q],
                        extrude_dist as int,
                        normal,
                    ) && new_positions@[q].in_bounds(),
                new_vertices@.len() == n,
                forall|q: int|
                    0 <= q < n ==> #[trigger] new_vertices@[q] == (first_new_vertex + q) as usize,
                // growth so far
                self.vertices@.len() == mid.vertices@.len(),
                forall|v: int|
                    0 <= v < mid.vertices@.len() ==> (#[trigger] self.vertices@[v]).position
                        == mid.vertices@[v].position,
                self.faces@.len() == first_new_face + j,
                self.spans@.len() == self.faces@.len(),
                self.half_edges@.len() == first_new_edge + 4 * j,
                forall|g: int|
                    0 <= g < first_new_face ==> #[trigger] self.faces@[g] == pre.faces@[g],
                forall|g: int|
                    0 <= g < first_new_face ==> #[trigger] self.spans@[g] == pre.spans@[g],
                forall|e: int|
                    0 <= e < first_new_edge ==> #[trigger] self.half_edges@[e]
                        == pre.half_edges@[e],
                forall|q: int|
                    0 <= q < j ==> #[trigger] self.face_degree(first_new_face + q) == 4,
                forall|q: int|
                    0 <= q < j ==> #[trigger] self.face_vertices(first_new_face + q)
                        == Mesh::side_quad(vs, first_new_vertex, q),
                forall|g: int|
                    first_new_face <= g < self.faces@.len() ==> (#[trigger] self.faces@[g]).normal
                        is None,
        {
            let next_j = if j == n - 1 { 0 } else { j + 1 };
            proof {
                if j == n - 1 {
                    vstd::arithmetic::div_mod::lemma_mod_self_0(n as int);
                } else {
                    vstd::arithmetic::div_mod::lemma_small_mod((j + 1) as nat, n as nat);
                }
                assert((j + 1) % (n as int) == next_j);
            }
            let old1 = old_vertices[j];
            let old2 = old_vertices[next_j];
            let new1 = new_vertices[j];
            let new2 = new_vertices[next_j];

            let mut quad: Vec<usize> = Vec::new();
            quad.push(old1);
            quad.push(old2);
            quad.push(new2);
            quad.push(new1);
            let ghost before = *self;
            self.add_face(&quad);
            proof {
                assert(quad@ =~= Mesh::side_quad(vs, first_new_vertex, j as int));
                assert forall|q: int|
                    0 <= q < j + 1 implies #[trigger] self.face_vertices(first_new_face + q)
                    == Mesh::side_quad(vs, first_new_vertex, q) by {
                    if q < j {
                        lemma_face_boundary_frame(before, *self, first_new_face + q);
                    }
                }
                assert forall|q: int|
                    0 <= q < j + 1 implies #[trigger] self.face_degree(first_new_face + q)
                    == 4 by {
                    if q < j {
                        lemma_face_boundary_frame(before, *self, first_new_face + q);
                    } else {
                        assert(self.spans@[first_new_face + j] == (before.half_edges@.len() as int, 4int));
                    }
                }
            }
        }

        // Close the solid with the top face.
        let ghost before_top = *self;
        let top = self.add_face(&new_vertices);
        proof {
            assert forall|q: int|
                0 <= q < n implies #[trigger] self.face_vertices(first_new_face + q)
                == Mesh::side_quad(vs, first_new_vertex, q) by {
                lemma_face_boundary_frame(before_top, *self, first_new_face + q);
            }
            assert forall|q: int|
                0 <= q < n implies #[trigger] self.face_degree(first_new_face + q) == 4 by {
                lemma_face_boundary_frame(before_top, *self, first_new_face + q);
            }
            assert(self.face_vertices(top as int) =~= Mesh::consecutive_vertices(
                first_new_vertex,
                n as int,
            ));
            assert forall|k: int|
                0 <= k < n implies (#[trigger] self.vertices@[first_new_vertex + k]).position
                == offset_along(pre.face_positions(f)[k], extrude_dist as int, pre.faces@[
                f].normal->0) by {
                assert(self.vertices@[first_new_vertex + k].position == new_positions@[k]);
            }
        }
        Ok(top)
    }

    /// Extrudes face `face` through a profile of relative (radial, height)
    /// steps. Every profile step creates one duplicated vertex layer;
    /// consecutive layers (the original boundary is layer zero) are joined
    /// by quadrilateral side faces, and the last layer is closed with one
    /// top face. An empty profile changes nothing and returns `face`
    /// itself. Returns the final top face's index.
    ///
    /// Fails, leaving the mesh untouched, when the arenas cannot hold the
    /// result or a layer coordinate or accumulator leaves its bound.
    #[verifier::rlimit(100)]
    pub fn extrude_profile(&mut self, face: usize, profile: &Vec<(i32, i32)>) -> (r: Result<
        usize,
        MeshError,
    >)
        requires
            old(self).wf(),
            face < old(self).faces@.len(),
            old(self).faces@[face as int].normal is Some,
        ensures
            Mesh::profile_fits(*old(self), face as int, profile@) && Mesh::profile_ok(
                *old(self),
                face as int,
                profile@,
            ) ==> r is Ok,
            match r {
                Ok(top) => {
                    let pre = *old(self);
                    let post = *final(self);
                    let f = face as int;
                    let n = pre.face_degree(f);
                    let vs = pre.face_vertices(f);
                    let ell = profile@.len() as int;
                    let first_new_vertex = pre.vertices@.len() as int;
                    let first_new_face = pre.faces@.len() as int;
                    if ell == 0 {
                        top == face && post == pre
                    } else {
                        &&& post.wf()
                        &&& post.vertices@.len() == pre.vertices@.len() + ell * n
                        &&& post.faces@.len() == pre.faces@.len() + ell * n + 1
                        &&& post.half_edges@.len() == pre.half_edges@.len() + 4 * (ell * n) + n
                        &&& forall|e: int|
                            0 <= e < pre.half_edges@.len() ==> #[trigger] post.half_edges@[e]
                                == pre.half_edges@[e]
                        &&& forall|g: int|
                            0 <= g < pre.faces@.len() ==> #[trigger] post.faces@[g]
                                == pre.faces@[g]
                        &&& forall|g: int|
                            0 <= g < pre.faces@.len() ==> #[trigger] post.spans@[g]
                                == pre.spans@[g]
                        &&& forall|v: int|
                            0 <= v < pre.vertices@.len() ==> (#[trigger] post.vertices@[v]).position
                                == pre.vertices@[v].position
                        // each layer vertex sits exactly at its profile
                        // position
                        &&& forall|s: int, k: int|
                            1 <= s <= ell && 0 <= k < n ==> (#[trigger] post.vertices@[
                            first_new_vertex + (s - 1) * n + k]).position == Mesh::profile_position(
                                pre,
                                f,
                                profile@,
                                s,
                                k,
                            )
                        // one quadrilateral per boundary edge per layer
                        // transition
                        &&& forall|t: int, j: int|
                            0 <= t < ell && 0 <= j < n ==> #[trigger] post.face_degree(
                                first_new_face + t * n + j,
                            ) == 4
                        &&& forall|t: int, j: int|
                            0 <= t < ell && 0 <= j < n ==> #[trigger] post.face_vertices(
                                first_new_face + t * n + j,
                            ) == Mesh::profile_quad(vs, first_new_vertex, n, t, j)
                        // the final top face closes the last layer
                        &&& top == first_new_face + ell * n
                        &&& post.face_degree(top as int) == n
                        &&& post.face_vertices(top as int) == Mesh::consecutive_vertices(
                            first_new_vertex + (ell - 1) * n,
                            n,
                        )
                        &&& forall|g: int|
                            pre.faces@.len() <= g < post.faces@.len() ==> (#[trigger] post.faces@[
                            g]).normal is None
                    }
                },
                Err(e) => {
                    &&& *final(self) == *old(self)
                    &&& (e == MeshError::ArenaOverflow || e == MeshError::CoordinateOverflow)
                    &&& e == MeshError::ArenaOverflow ==> !Mesh::profile_fits(
                        *old(self),
                        face as int,
                        profile@,
                    )
                    &&& e == MeshError::CoordinateOverflow ==> !Mesh::profile_ok(
                        *old(self),
                        face as int,
                        profile@,
                    )
                },
            },
    {
        let ghost pre = *self;
        let ghost f = face as int;
        let ell = profile.len();
        if ell == 0 {
            return Ok(face);
        }

        let normal = match self.faces[face].normal {
            Some(nv) => nv,
            None => {
                proof {
                    assert(false);
                }
                return Err(MeshError::CoordinateOverflow);
            },
        };

        let old_vertices = self.face_vertex_list(face);
        let n = old_vertices.len();
        let old_positions = self.get_face_positions(face);
        proof {
            assert(pre.wf_face(f));
            vstd::arithmetic::mul::lemma_mul_basics(n as int);
        }

        // The direction from every boundary vertex toward the centroid,
        // reused for every layer.
        let c = Self::compute_centroid(&old_positions);
        let mut center_directions: Vec<Vec3> = Vec::new();
        for k in 0..n
            invariant
                *self == pre,
                pre.wf(),
                f == face as int,
                0 <= f < pre.faces@.len(),
                n == pre.face_degree(f),
                old_positions@ == pre.face_positions(f),
                forall|j: int| 0 <= j < n ==> (#[trigger] old_positions@[j]).in_bounds(),
                c == Mesh::centroid_of(pre.face_positions(f)),
                c.in_bounds(),
                center_directions@.len() == k,
                forall|j: int|
                    0 <= j < k ==> #[trigger] center_directions@[j] == Mesh::center_direction(
                        pre,
                        f,
                        j,
                    ),
                forall|j: int|
                    0 <= j < k ==> (#[trigger] center_directions@[j]).in_double_bounds(),
        {
            let p = old_positions[k];
            center_directions.push(Vec3 { x: c.x - p.x, y: c.y - p.y, z: c.z - p.z });
        }

        // The arenas must be able to hold every new vertex, half-edge and
        // face; an overflow must leave the mesh untouched.
        let vlen128 = self.vertices.len() as u128;
        let helen128 = self.half_edges.len() as u128;
        let umax = usize::MAX as u128;
        proof {
            crate::vec3::lemma_mul_le(ell as int, n as int, 0xffffffffffffffffint,
                0xffffffffffffffffint);
        }
        let elln: u128 = (ell as u128) * (n as u128);
        proof {
            vstd::arithmetic::mul::lemma_mul_is_associative(4, ell as int, n as int);
        }
        if elln > umax || vlen128 + elln > umax || helen128 + 4 * elln + (n as u128) >= umax {
            proof {
                assert(!Mesh::profile_fits(pre, f, profile@));
            }
            return Err(MeshError::ArenaOverflow);
        }
        let total = ell * n;

        // Walk the profile and compute every layer position, checking each
        // accumulator and coordinate against its bound.
        let mut acc_c: i64 = 0;
        let mut acc_n: i64 = 0;
        let mut new_positions: Vec<Vec3> = Vec::new();
        for t in 0..ell
            invariant
                *self == pre,
                pre.wf(),
                f == face as int,
                0 <= f < pre.faces@.len(),
                pre.faces@[f].normal == Some(normal),
                normal.unit_bounds(),
                ell == profile@.len(),
                n == pre.face_degree(f),
                3 <= n,
                old_positions@ == pre.face_positions(f),
                forall|j: int| 0 <= j < n ==> (#[trigger] old_positions@[j]).in_bounds(),
                center_directions@.len() == n,
                forall|j: int|
                    0 <= j < n ==> #[trigger] center_directions@[j] == Mesh::center_direction(
                        pre,
                        f,
                        j,
                    ),
                forall|j: int|
                    0 <= j < n ==> (#[trigger] center_directions@[j]).in_double_bounds(),
                acc_c == Mesh::acc_radial(profile@, t as int),
                acc_n == Mesh::acc_height(profile@, t as int),
                -ACC_LIMIT <= acc_c <= ACC_LIMIT,
                -ACC_LIMIT <= acc_n <= ACC_LIMIT,
                new_positions@.len() == t * n,
                forall|s: int, k: int|
                    1 <= s <= t && 0 <= k < n ==> #[trigger] new_positions@[(s - 1) * n + k]
                        == Mesh::profile_position(pre, f, profile@, s, k),
                forall|q: int| 0 <= q < new_positions@.len() ==> (#[trigger] new_positions@[q]).in_bounds(),
                forall|s: int|
                    1 <= s <= t ==> {
                        &&& -ACC_LIMIT <= #[trigger] Mesh::acc_radial(profile@, s) <= ACC_LIMIT
                        &&& -ACC_LIMIT <= Mesh::acc_height(profile@, s) <= ACC_LIMIT
                        &&& forall|k: int|
                            0 <= k < n ==> {
                                let (x, y, z) = #[trigger] Mesh::profile_coords(
                                    pre,
                                    f,
                                    profile@,
                                    s,
                                    k,
                                );
                                &&& -MAX_COORD <= x <= MAX_COORD
                                &&& -MAX_COORD <= y <= MAX_COORD
                                &&& -MAX_COORD <= z <= MAX_COORD
                            }
                    },
        {
            let (center_offset, normal_offset) = profile[t];
            let next_c: i64 = acc_c + (center_offset as i64);
            let next_n: i64 = acc_n + (normal_offset as i64);
            if next_c < -ACC_LIMIT || next_c > ACC_LIMIT || next_n < -ACC_LIMIT || next_n
                > ACC_LIMIT {
                proof {
                    assert(next_c as int == Mesh::acc_radial(profile@, t + 1));
                    assert(next_n as int == Mesh::acc_height(profile@, t + 1));
                    assert(!Mesh::profile_ok(pre, f, profile@));
                }
                return Err(MeshError::CoordinateOverflow);
            }
            acc_c = next_c;
            acc_n = next_n;
            let dc: i128 = (acc_c as i128) * (RADIAL_STEP as i128);
            let dn: i128 = (acc_n as i128) * (HEIGHT_STEP as i128);
            proof {
                assert(acc_c == Mesh::acc_radial(profile@, t + 1));
                assert(acc_n == Mesh::acc_height(profile@, t + 1));
                crate::vec3::lemma_mul_le(acc_c as int, RADIAL_STEP as int, ACC_LIMIT as int,
                    RADIAL_STEP as int);
                crate::vec3::lemma_mul_le(acc_n as int, HEIGHT_STEP as int, ACC_LIMIT as int,
                    HEIGHT_STEP as int);
            }
            let ghost entry_positions = new_positions@;
            for k in 0..n
                invariant
                    *self == pre,
                    pre.wf(),
                    f == face as int,
                    0 <= f < pre.faces@.len(),
                    pre.faces@[f].normal == Some(normal),
                    normal.unit_bounds(),
                    ell == profile@.len(),
                    t < ell,
                    n == pre.face_degree(f),
                    3 <= n,
                    old_positions@ == pre.face_positions(f),
                    forall|j: int| 0 <= j < n ==> (#[trigger] old_positions@[j]).in_bounds(),
                    center_directions@.len() == n,
                    forall|j: int|
                        0 <= j < n ==> #[trigger] center_directions@[j] == Mesh::center_direction(
                            pre,
                            f,
                            j,
                        ),
                    acc_c == Mesh::acc_radial(profile@, t + 1),
                    acc_n == Mesh::acc_height(profile@, t + 1),
                    -ACC_LIMIT <= acc_c <= ACC_LIMIT,
                    -ACC_LIMIT <= acc_n <= ACC_LIMIT,
                    dc == (acc_c as int) * (RADIAL_STEP as int),
                    dn == (acc_n as int) * (HEIGHT_STEP as int),
                    -125000000000000000 <= dc <= 125000000000000000,
                    -100000000000000000 <= dn <= 100000000000000000,
                    forall|j: int|
                        0 <= j < n ==> (#[trigger] center_directions@[j]).in_double_bounds(),
                    entry_positions.len() == t * n,
                    new_positions@.len() == t * n + k,
                    forall|j: int|
                        0 <= j < k ==> #[trigger] new_positions@[t * n + j]
                            == Mesh::profile_position(pre, f, profile@, t + 1, j) && ({
                            let (x, y, z) = Mesh::profile_coords(pre, f, profile@, t + 1, j);
                            -MAX_COORD <= x <= MAX_COORD && -MAX_COORD <= y <= MAX_COORD
                                && -MAX_COORD <= z <= MAX_COORD
                        }),
                    forall|q: int|
                        0 <= q < entry_positions.len() ==> #[trigger] new_positions@[q]
                            == entry_positions[q],
            {
                let p = old_positions[k];
                let cd = center_directions[k];
                proof {
                    crate::vec3::lemma_mul_le(dc as int, cd.x as int, 125000000000000000int,
                        2 * MAX_COORD);
                    crate::vec3::lemma_mul_le(dc as int, cd.y as int, 125000000000000000int,
                        2 * MAX_COORD);
                    crate::vec3::lemma_mul_le(dc as int, cd.z as int, 125000000000000000int,
                        2 * MAX_COORD);
                    crate::vec3::lemma_mul_le(dn as int, normal.x as int, 100000000000000000int,
                        SCALE as int);
                    crate::vec3::lemma_mul_le(dn as int, normal.y as int, 100000000000000000int,
                        SCALE as int);
                    crate::vec3::lemma_mul_le(dn as int, normal.z as int, 100000000000000000int,
                        SCALE as int);
                    crate::vec3::lemma_tdiv_bound((dc as int) * (cd.x as int), SCALE as int,
                        125000000000000000 * 2 * MAX_COORD);
                    crate::vec3::lemma_tdiv_bound((dc as int) * (cd.y as int), SCALE as int,
                        125000000000000000 * 2 * MAX_COORD);
                    crate::vec3::lemma_tdiv_bound((dc as int) * (cd.z as int), SCALE as int,
                        125000000000000000 * 2 * MAX_COORD);
                    crate::vec3::lemma_tdiv_bound((dn as int) * (normal.x as int), SCALE as int,
                        100000000000000000 * (SCALE as int));
                    crate::vec3::lemma_tdiv_bound((dn as int) * (normal.y as int), SCALE as int,
                        100000000000000000 * (SCALE as int));
                    crate::vec3::lemma_tdiv_bound((dn as int) * (normal.z as int), SCALE as int,
                        100000000000000000 * (SCALE as int));
                }
                let scale128 = SCALE as i128;
                let x = (p.x as i128) + tdiv_i128(dc * (cd.x as i128), scale128) + tdiv_i128(
                    dn * (normal.x as i128), scale128);
                let y = (p.y as i128) + tdiv_i128(dc * (cd.y as i128), scale128) + tdiv_i128(
                    dn * (normal.y as i128), scale128);
                let z = (p.z as i128) + tdiv_i128(dc * (cd.z as i128), scale128) + tdiv_i128(
                    dn * (normal.z as i128), scale128);
                proof {
                    assert((x as int, y as int, z as int) == Mesh::profile_coords(pre, f,
                        profile@, t + 1, k as int));
                }
                let limit = MAX_COORD as i128;
                if x < -limit || x > limit || y < -limit || y > limit || z < -limit || z
                    > limit {
                    proof {
                        assert(!Mesh::profile_ok(pre, f, profile@));
                    }
                    return Err(MeshError::CoordinateOverflow);
                }
                let ghost prevp = new_positions@;
                new_positions.push(Vec3 { x: x as i64, y: y as i64, z: z as i64 });
                proof {
                    assert forall|j: int|
                        0 <= j < k + 1 implies #[trigger] new_positions@[t * n + j]
                        == Mesh::profile_position(pre, f, profile@, t + 1, j) && ({
                        let (xx, yy, zz) = Mesh::profile_coords(pre, f, profile@, t + 1, j);
                        -MAX_COORD <= xx <= MAX_COORD && -MAX_COORD <= yy <= MAX_COORD
                            && -MAX_COORD <= zz <= MAX_COORD
                    }) by {
                        if j < k {
                            assert(new_positions@[t * n + j] == prevp[t * n + j]);
                        } else {
                            assert(new_positions@[t * n + k] == (Vec3 {
                                x: x as i64,
                                y: y as i64,
                                z: z as i64,
                            }));
                        }
                    }
                }
            }
            proof {
                assert((t + 1) * n == t * n + n) by (nonlinear_arith);
                assert forall|s: int, k: int|
                    1 <= s <= t + 1 && 0 <= k < n implies #[trigger] new_positions@[(s - 1) * n
                    + k] == Mesh::profile_position(pre, f, profile@, s, k) by {
                    if s <= t {
                        assert((s - 1) * n + k < t * n) by (nonlinear_arith)
                            requires
                                1 <= s <= t,
                                0 <= k < n,
                                3 <= n,
                        ;
                        assert(new_positions@[(s - 1) * n + k] == entry_positions[(s - 1) * n
                            + k]);
                    } else {
                        assert((s - 1) * n + k == t * n + k);
                    }
                }
                assert forall|q: int|
                    0 <= q < new_positions@.len() implies (#[trigger] new_positions@[q]).in_bounds()
                    by {
                    if q < t * n {
                        assert(new_positions@[q] == entry_positions[q]);
                    } else {
                        let j = q - t * n;
                        assert(new_positions@[t * n + j] == Mesh::profile_position(pre, f,
                            profile@, t + 1, j));
                    }
                }
                assert forall|s: int|
                    1 <= s <= t + 1 implies {
                    &&& -ACC_LIMIT <= #[trigger] Mesh::acc_radial(profile@, s) <= ACC_LIMIT
                    &&& -ACC_LIMIT <= Mesh::acc_height(profile@, s) <= ACC_LIMIT
                    &&& forall|k: int|
                        0 <= k < n ==> {
                            let (x, y, z) = #[trigger] Mesh::profile_coords(pre, f, profile@, s,
                                k);
                            &&& -MAX_COORD <= x <= MAX_COORD
                            &&& -MAX_COORD <= y <= MAX_COORD
                            &&& -MAX_COORD <= z <= MAX_COORD
                        }
                } by {
                    if s == t + 1 {
                        assert forall|k: int|
                            0 <= k < n implies {
                            let (x, y, z) = #[trigger] Mesh::profile_coords(pre, f, profile@, s,
                                k);
                            &&& -MAX_COORD <= x <= MAX_COORD
                            &&& -MAX_COORD <= y <= MAX_COORD
                            &&& -MAX_COORD <= z <= MAX_COORD
                        } by {
                            assert(new_positions@[t * n + k] == Mesh::profile_position(pre, f,
                                profile@, t + 1, k));
                        }
                    }
                }
            }
        }

        // All checks passed: duplicate the vertices layer by layer.
        let first_new_vertex = self.vertices.len();
        let ghost mid0 = *self;
        for q in 0..total
            invariant
                pre.wf(),
                self.wf(),
                total == profile@.len() * pre.face_degree(f),
                first_new_vertex == pre.vertices@.len(),
                first_new_vertex + total <= usize::MAX,
                self.half_edges@ == pre.half_edges@,
                self.faces@ == pre.faces@,
                self.spans@ == pre.spans@,
                self.vertices@.len() == first_new_vertex + q,
                forall|v: int|
                    0 <= v < pre.vertices@.len() ==> #[trigger] self.vertices@[v]
                        == pre.vertices@[v],
                new_positions@.len() == total,
                forall|i: int| 0 <= i < total ==> (#[trigger] new_positions@[i]).in_bounds(),
                forall|i: int|
                    0 <= i < q ==> (#[trigger] self.vertices@[first_new_vertex + i]).position
                        == new_positions@[i],
        {
            self.add_vertex(new_positions[q]);
        }

        // Join consecutive layers with quadrilateral side faces.
        let ghost mid = *self;
        let ghost vs = pre.face_vertices(f);
        let first_new_face = self.faces.len();
        let ghost first_new_edge = self.half_edges@.len() as int;
        proof {
            assert(pre.wf_face(f));
        }
        for t in 0..ell
            invariant
                pre.wf(),
                mid.wf(),
                self.wf(),
                f == face as int,
                0 <= f < pre.faces@.len(),
                ell == profile@.len(),
                1 <= ell,
                n == pre.face_degree(f),
                3 <= n,
                total == ell * n,
                vs == pre.face_vertices(f),
                old_vertices@ == vs,
                forall|i: int| 0 <= i < n ==> #[trigger] old_vertices@[i] < first_new_vertex,
                first_new_vertex == pre.vertices@.len(),
                first_new_face == pre.faces@.len(),
                first_new_edge == pre.half_edges@.len(),
                first_new_edge + 4 * total + n < usize::MAX,
                first_new_vertex + total <= usize::MAX,
                mid.vertices@.len() == first_new_vertex + total,
                mid.half_edges@ == pre.half_edges@,
                mid.faces@ == pre.faces@,
                mid.spans@ == pre.spans@,
                new_positions@.len() == total,
                forall|v: int|
                    0 <= v < pre.vertices@.len() ==> #[trigger] mid.vertices@[v]
                        == pre.vertices@[v],
                forall|i: int|
                    0 <= i < total ==> (#[trigger] mid.vertices@[first_new_vertex + i]).position
                        == new_positions@[i],
                forall|s: int, k: int|
                    1 <= s <= ell && 0 <= k < n ==> #[trigger] new_positions@[(s - 1) * n + k]
                        == Mesh::profile_position(pre, f, profile@, s, k),
                // growth so far
                self.vertices@.len() == mid.vertices@.len(),
                forall|v: int|
                    0 <= v < mid.vertices@.len() ==> (#[trigger] self.vertices@[v]).position
                        == mid.vertices@[v].position,
                self.faces@.len() == first_new_face + t * n,
                self.spans@.len() == self.faces@.len(),
                self.half_edges@.len() == first_new_edge + 4 * (t * n),
                forall|g: int|
                    0 <= g < first_new_face ==> #[trigger] self.faces@[g] == pre.faces@[g],
                forall|g: int|
                    0 <= g < first_new_face ==> #[trigger] self.spans@[g] == pre.spans@[g],
                forall|e: int|
                    0 <= e < first_new_edge ==> #[trigger] self.half_edges@[e]
                        == pre.half_edges@[e],
                forall|u: int, j: int|
                    0 <= u < t && 0 <= j < n ==> #[trigger] self.face_degree(
                        first_new_face + u * n + j,
                    ) == 4,
                forall|u: int, j: int|
                    0 <= u < t && 0 <= j < n ==> #[trigger] self.face_vertices(
                        first_new_face + u * n + j,
                    ) == Mesh::profile_quad(vs, first_new_vertex as int, n as int, u, j),
                forall|g: int|
                    first_new_face <= g < self.faces@.len() ==> (#[trigger] self.faces@[g]).normal
                        is None,
        {
            proof {
                vstd::arithmetic::mul::lemma_mul_inequality(t + 1, ell as int, n as int);
                assert((t + 1) * n == t * n + n) by (nonlinear_arith);
                vstd::arithmetic::mul::lemma_mul_nonnegative(t as int, n as int);
            }
            for j in 0..n
                invariant
                    pre.wf(),
                    mid.wf(),
                    self.wf(),
                    f == face as int,
                    0 <= f < pre.faces@.len(),
                    ell == profile@.len(),
                    1 <= ell,
                    t < ell,
                    n == pre.face_degree(f),
                    3 <= n,
                    total == ell * n,
                    t * n + n <= total,
                    vs == pre.face_vertices(f),
                    old_vertices@ == vs,
                    forall|i: int| 0 <= i < n ==> #[trigger] old_vertices@[i] < first_new_vertex,
                    first_new_vertex == pre.vertices@.len(),
                    first_new_face == pre.faces@.len(),
                    first_new_edge == pre.half_edges@.len(),
                    first_new_edge + 4 * total + n < usize::MAX,
                    first_new_vertex + total <= usize::MAX,
                    mid.vertices@.len() == first_new_vertex + total,
                    self.vertices@.len() == mid.vertices@.len(),
                    forall|v: int|
                        0 <= v < mid.vertices@.len() ==> (#[trigger] self.vertices@[v]).position
                            == mid.vertices@[v].position,
                    self.faces@.len() == first_new_face + t * n + j,
                    self.spans@.len() == self.faces@.len(),
                    self.half_edges@.len() == first_new_edge + 4 * (t * n + j),
                    forall|g: int|
                        0 <= g < first_new_face ==> #[trigger] self.faces@[g] == pre.faces@[g],
                    forall|g: int|
                        0 <= g < first_new_face ==> #[trigger] self.spans@[g] == pre.spans@[g],
                    forall|e: int|
                        0 <= e < first_new_edge ==> #[trigger] self.half_edges@[e]
                            == pre.half_edges@[e],
                    forall|u: int, jj: int|
                        (0 <= u < t && 0 <= jj < n) || (u == t && 0 <= jj < j)
                            ==> #[trigger] self.face_degree(first_new_face + u * n + jj) == 4,
                    forall|u: int, jj: int|
                        (0 <= u < t && 0 <= jj < n) || (u == t && 0 <= jj < j)
                            ==> #[trigger] self.face_vertices(first_new_face + u * n + jj)
                            == Mesh::profile_quad(vs, first_new_vertex as int, n as int, u, jj),
                    forall|g: int|
                        first_new_face <= g < self.faces@.len() ==> (#[trigger] self.faces@[
                        g]).normal is None,
            {
                let next_j = if j == n - 1 { 0 } else { j + 1 };
                proof {
                    if j == n - 1 {
                        vstd::arithmetic::div_mod::lemma_mod_self_0(n as int);
                    } else {
                        vstd::arithmetic::div_mod::lemma_small_mod((j + 1) as nat, n as nat);
                    }
                    assert((j + 1) % (n as int) == next_j);
                    vstd::arithmetic::mul::lemma_mul_nonnegative(t as int, n as int);
                    if t >= 1 {
                        assert(0 <= (t - 1) * n) by (nonlinear_arith)
                            requires
                                1 <= t,
                                3 <= n,
                        ;
                        assert((t - 1) * n + n == t * n) by (nonlinear_arith);
                    }
                }
                let current1 = if t == 0 {
                    old_vertices[j]
                } else {
                    first_new_vertex + (t - 1) * n + j
                };
                let current2 = if t == 0 {
                    old_vertices[next_j]
                } else {
                    first_new_vertex + (t - 1) * n + next_j
                };
                let next1 = first_new_vertex + t * n + j;
                let next2 = first_new_vertex + t * n + next_j;
                proof {
                    assert(current1 == Mesh::layer_vertex(vs, first_new_vertex as int, n as int,
                        t as int, j as int));
                    assert(current2 == Mesh::layer_vertex(vs, first_new_vertex as int, n as int,
                        t as int, (j + 1) % (n as int)));
                    assert(next1 == Mesh::layer_vertex(vs, first_new_vertex as int, n as int,
                        t + 1, j as int));
                    assert(next2 == Mesh::layer_vertex(vs, first_new_vertex as int, n as int,
                        t + 1, (j + 1) % (n as int)));
                }
                let mut quad: Vec<usize> = Vec::new();
                quad.push(current1);
                quad.push(current2);
                quad.push(next2);
                quad.push(next1);
                let ghost before = *self;
                self.add_face(&quad);
                proof {
                    assert(quad@ =~= Mesh::profile_quad(vs, first_new_vertex as int, n as int,
                        t as int, j as int));
                    assert forall|u: int, jj: int|
                        (0 <= u < t && 0 <= jj < n) || (u == t && 0 <= jj < j + 1)
                            implies #[trigger] self.face_vertices(first_new_face + u * n + jj)
                        == Mesh::profile_quad(vs, first_new_vertex as int, n as int, u, jj) by {
                        if u < t || jj < j {
                            assert(u * n + jj < t * n + j) by (nonlinear_arith)
                                requires
                                    (0 <= u < t && 0 <= jj < n) || (u == t && 0 <= jj < j),
                                    3 <= n,
                            ;
                            lemma_face_boundary_frame(before, *self, first_new_face + u * n + jj);
                        }
                    }
                    assert forall|u: int, jj: int|
                        (0 <= u < t && 0 <= jj < n) || (u == t && 0 <= jj < j + 1)
                            implies #[trigger] self.face_degree(first_new_face + u * n + jj)
                        == 4 by {
                        if u < t || jj < j {
                            assert(u * n + jj < t * n + j) by (nonlinear_arith)
                                requires
                                    (0 <= u < t && 0 <= jj < n) || (u == t && 0 <= jj < j),
                                    3 <= n,
                            ;
                            lemma_face_boundary_frame(before, *self, first_new_face + u * n + jj);
                        } else {
                            assert(self.spans@[first_new_face + t * n + j] == (
                                before.half_edges@.len() as int,
                                4int,
                            ));
                        }
                    }
                }
            }
            proof {
                assert((t + 1) * n == t * n + n) by (nonlinear_arith);
            }
        }

        // Close the last layer with a top face.
        proof {
            assert(0 <= (ell - 1) * n && (ell - 1) * n + n == ell * n) by (nonlinear_arith)
                requires
                    1 <= ell,
                    3 <= n,
            ;
        }
        let mut top_vertices: Vec<usize> = Vec::new();
        let base = first_new_vertex + (ell - 1) * n;
        for k in 0..n
            invariant
                base == first_new_vertex + (ell - 1) * n,
                base + n <= first_new_vertex + total,
                first_new_vertex + total <= usize::MAX,
                top_vertices@.len() == k,
                forall|i: int|
                    0 <= i < k ==> #[trigger] top_vertices@[i] == (base + i) as usize,
        {
            top_vertices.push(base + k);
        }
        let ghost before_top = *self;
        let top = self.add_face(&top_vertices);
        proof {
            assert forall|u: int, jj: int|
                0 <= u < ell && 0 <= jj < n implies #[trigger] self.face_vertices(
                first_new_face + u * n + jj,
            ) == Mesh::profile_quad(vs, first_new_vertex as int, n as int, u, jj) by {
                assert(0 <= u * n + jj < ell * n) by (nonlinear_arith)
                    requires
                        0 <= u < ell,
                        0 <= jj < n,
                ;
                lemma_face_boundary_frame(before_top, *self, first_new_face + u * n + jj);
            }
            assert forall|u: int, jj: int|
                0 <= u < ell && 0 <= jj < n implies #[trigger] self.face_degree(
                first_new_face + u * n + jj,
            ) == 4 by {
                assert(0 <= u * n + jj < ell * n) by (nonlinear_arith)
                    requires
                        0 <= u < ell,
                        0 <= jj < n,
                ;
                lemma_face_boundary_frame(before_top, *self, first_new_face + u * n + jj);
            }
            assert(self.face_vertices(top as int) =~= Mesh::consecutive_vertices(
                base as int,
                n as int,
            ));
            assert forall|s: int, k: int|
                1 <= s <= ell && 0 <= k < n implies (#[trigger] self.vertices@[first_new_vertex
                + (s - 1) * n + k]).position == Mesh::profile_position(pre, f, profile@, s, k) by {
                let i = (s - 1) * n + k;
                assert(0 <= i < total) by (nonlinear_arith)
                    requires
                        i == (s - 1) * n + k,
                        1 <= s <= ell,
                        0 <= k < n,
                        total == ell * n,
                        3 <= n,
                ;
                assert(mid.vertices@[first_new_vertex + i].position == new_positions@[i]);
                assert(before_top.vertices@[first_new_vertex + i].position
                    == mid.vertices@[first_new_vertex + i].position);
                assert(self.vertices@[first_new_vertex + i].position == before_top.vertices@[
                first_new_vertex + i].position);
                assert(new_positions@[i] == Mesh::profile_position(pre, f, profile@, s, k));
            }
        }
        Ok(top)
    }

    /// Total number of face corners (sum of face degrees) of the first
    /// `f` faces. Each face contributes one duplicated vertex per corner to
    /// the triangulated output.
    pub open spec fn corners_upto(self, f: int) -> int
        decreases f,
    {
        if f <= 0 {
            0
        } else {
            self.corners_upto(f - 1) + self.face_degree(f - 1)
        }
    }

    /// Total number of triangle corner indices emitted for the first `f`
    /// faces: three per fan triangle.
    pub open spec fn tri_indices_upto(self, f: int) -> int
        decreases f,
    {
        if f <= 0 {
            0
        } else {
            self.tri_indices_upto(f - 1) + 3 * (self.face_degree(f - 1) - 2)
        }
    }

    /// Corner and triangle counts are nonnegative.
    pub proof fn lemma_counts_nonneg(self, a: int)
        requires
            self.wf(),
            0 <= a <= self.faces@.len(),
        ensures
            0 <= self.corners_upto(a),
            0 <= self.tri_indices_upto(a),
        decreases a,
    {
        if a > 0 {
            assert(self.wf_face(a - 1));
            self.lemma_counts_nonneg(a - 1);
        }
    }

    /// Corner and triangle counts grow monotonically with the face prefix.
    pub proof fn lemma_counts_monotone(self, a: int, b: int)
        requires
            self.wf(),
            0 <= a <= b <= self.faces@.len(),
        ensures
            self.corners_upto(a) <= self.corners_upto(b),
            self.tri_indices_upto(a) <= self.tri_indices_upto(b),
        decreases b - a,
    {
        if a < b {
            assert(self.wf_face(b - 1));
            self.lemma_counts_monotone(a, b - 1);
        }
    }

    /// All duplicated corner positions of the first `f` faces, in face
    /// order.
    pub open spec fn tri_positions_upto(self, f: int) -> Seq<Vec3>
        decreases f,
    {
        if f <= 0 {
            Seq::empty()
        } else {
            self.tri_positions_upto(f - 1) + self.face_positions(f - 1)
        }
    }

    /// The flat per-corner normals of the first `f` faces: each face's
    /// cached normal, repeated once per corner.
    pub open spec fn tri_normals_upto(self, f: int) -> Seq<Vec3>
        decreases f,
    {
        if f <= 0 {
            Seq::empty()
        } else {
            self.tri_normals_upto(f - 1) + Seq::new(
                self.face_degree(f - 1) as nat,
                |k: int| self.faces@[f - 1].normal->0,
            )
        }
    }

    /// The fan triangulation corner indices of an `n`-gon, offset by the
    /// corners that came before.
    pub open spec fn offset_fan(base: int, n: int) -> Seq<u32> {
        Seq::new((3 * (n - 2)) as nat, |k: int| (base + fan_indices(n)[k]) as u32)
    }

    /// The triangle corner indices of the first `f` faces.
    pub open spec fn tri_indices_seq_upto(self, f: int) -> Seq<u32>
        decreases f,
    {
        if f <= 0 {
            Seq::empty()
        } else {
            self.tri_indices_seq_upto(f - 1) + Mesh::offset_fan(
                self.corners_upto(f - 1),
                self.face_degree(f - 1),
            )
        }
    }

    /// Every duplicated corner position is in bounds, and every flat
    /// normal is unit-bounded.
    pub proof fn lemma_tri_data_bounds(self, f: int)
        requires
            self.wf(),
            0 <= f <= self.faces@.len(),
            forall|g: int| 0 <= g < self.faces@.len() ==> (#[trigger] self.faces@[g]).normal is Some,
        ensures
            forall|q: int|
                0 <= q < self.tri_positions_upto(f).len() ==> (#[trigger] self.tri_positions_upto(
                    f,
                )[q]).in_bounds(),
            forall|q: int|
                0 <= q < self.tri_normals_upto(f).len() ==> (#[trigger] self.tri_normals_upto(
                    f,
                )[q]).unit_bounds(),
        decreases f,
    {
        if f > 0 {
            self.lemma_tri_data_bounds(f - 1);
            assert(self.wf_face(f - 1));
            assert forall|q: int|
                0 <= q < self.tri_positions_upto(f).len() implies (
            #[trigger] self.tri_positions_upto(f)[q]).in_bounds() by {
                let prev = self.tri_positions_upto(f - 1);
                if q < prev.len() {
                    assert(self.tri_positions_upto(f)[q] == prev[q]);
                } else {
                    let j = q - prev.len();
                    assert(self.tri_positions_upto(f)[q] == self.face_positions(f - 1)[j]);
                    assert(self.face_vertices(f - 1)[j] < self.vertices@.len());
                    assert(self.vertices@[self.face_vertices(f - 1)[j] as int].position.in_bounds());
                }
            }
            assert forall|q: int|
                0 <= q < self.tri_normals_upto(f).len() implies (
            #[trigger] self.tri_normals_upto(f)[q]).unit_bounds() by {
                let prev = self.tri_normals_upto(f - 1);
                if q < prev.len() {
                    assert(self.tri_normals_upto(f)[q] == prev[q]);
                } else {
                    assert(self.tri_normals_upto(f)[q] == self.faces@[f - 1].normal->0);
                    assert(self.faces@[f - 1].normal matches Some(nv) ==> nv.unit_bounds());
                }
            }
        }
    }

    /// Fan-triangulates every face: per face, every boundary corner is
    /// emitted as a duplicated position paired with the face's normal (so
    /// normals stay flat per face), and the fan's corner indices are offset
    /// by the running corner count.
    ///
    /// Returns `(positions, normals, indices)`.
    pub fn triangulate(&self) -> (r: (Vec<Vec3>, Vec<Vec3>, Vec<u32>))
        requires
            self.wf(),
            forall|f: int|
                0 <= f < self.faces@.len() ==> (#[trigger] self.faces@[f]).normal is Some,
            self.corners_upto(self.faces@.len() as int) <= u32::MAX,
        ensures
            ({
                let (positions, normals, indices) = r;
                let nf = self.faces@.len() as int;
                &&& positions@.len() == self.corners_upto(nf)
                &&& normals@.len() == self.corners_upto(nf)
                &&& indices@.len() == self.tri_indices_upto(nf)
                &&& positions@ == self.tri_positions_upto(nf)
                &&& normals@ == self.tri_normals_upto(nf)
                &&& indices@ == self.tri_indices_seq_upto(nf)
                &&& forall|f: int, j: int|
                    0 <= f < nf && 0 <= j < self.face_degree(f) ==> #[trigger] positions@[
                    self.corners_upto(f) + j] == self.face_positions(f)[j]
                &&& forall|f: int, j: int|
                    0 <= f < nf && 0 <= j < self.face_degree(f) ==> #[trigger] normals@[
                    self.corners_upto(f) + j] == self.faces@[f].normal->0
                &&& forall|f: int, k: int|
                    0 <= f < nf && 0 <= k < 3 * (self.face_degree(f) - 2) ==> #[trigger] indices@[
                    self.tri_indices_upto(f) + k] as int == self.corners_upto(f) + fan_indices(
                        self.face_degree(f),
                    )[k]
            }),
    {
        let mut positions: Vec<Vec3> = Vec::new();
        let mut normals: Vec<Vec3> = Vec::new();
        let mut indices: Vec<u32> = Vec::new();

        let mut vertex_count: usize = 0;
        let face_count = self.faces.len();
        for f in 0..face_count
            invariant
                self.wf(),
                face_count == self.faces@.len(),
                forall|g: int|
                    0 <= g < face_count ==> (#[trigger] self.faces@[g]).normal is Some,
                self.corners_upto(face_count as int) <= u32::MAX,
                vertex_count == self.corners_upto(f as int),
                positions@.len() == self.corners_upto(f as int),
                normals@.len() == self.corners_upto(f as int),
                indices@.len() == self.tri_indices_upto(f as int),
                positions@ == self.tri_positions_upto(f as int),
                normals@ == self.tri_normals_upto(f as int),
                indices@ == self.tri_indices_seq_upto(f as int),
                forall|g: int, j: int|
                    0 <= g < f && 0 <= j < self.face_degree(g) ==> #[trigger] positions@[
                    self.corners_upto(g) + j] == self.face_positions(g)[j],
                forall|g: int, j: int|
                    0 <= g < f && 0 <= j < self.face_degree(g) ==> #[trigger] normals@[
                    self.corners_upto(g) + j] == self.faces@[g].normal->0,
                forall|g: int, k: int|
                    0 <= g < f && 0 <= k < 3 * (self.face_degree(g) - 2) ==> #[trigger] indices@[
                    self.tri_indices_upto(g) + k] as int == self.corners_upto(g) + fan_indices(
                        self.face_degree(g),
                    )[k],
        {
            let normal = match self.faces[f].normal {
                Some(nv) => nv,
                None => {
                    proof {
                        assert(false);
                    }
                    Vec3 { x: 0, y: 0, z: 0 }
                },
            };
            let ngon_positions = self.get_face_positions(f);
            let n = ngon_positions.len();
            proof {
                assert(self.wf_face(f as int));
                self.lemma_counts_monotone(f as int, face_count as int);
                self.lemma_counts_monotone(f + 1, face_count as int);
                assert(self.corners_upto(f + 1) == self.corners_upto(f as int) + n);
            }

            let ghost entry_positions = positions@;
            let ghost entry_normals = normals@;
            for j in 0..n
                invariant
                    n == ngon_positions@.len(),
                    positions@.len() == entry_positions.len() + j,
                    normals@.len() == entry_normals.len() + j,
                    positions@ == entry_positions + ngon_positions@.take(j as int),
                    normals@.len() == entry_normals.len() + j,
                    forall|q: int|
                        0 <= q < entry_normals.len() ==> #[trigger] normals@[q]
                            == entry_normals[q],
                    forall|q: int|
                        0 <= q < j ==> #[trigger] normals@[entry_normals.len() + q] == normal,
            {
                positions.push(ngon_positions[j]);
                normals.push(normal);
                proof {
                    assert(positions@ =~= entry_positions + ngon_positions@.take(j + 1));
                }
            }

            let offsets = Self::triangulate_ngon(n);
            let ghost entry_indices = indices@;
            let offset_count = offsets.len();
            for k in 0..offset_count
                invariant
                    self.wf(),
                    f < face_count,
                    face_count == self.faces@.len(),
                    vertex_count == self.corners_upto(f as int),
                    n == self.face_degree(f as int),
                    vertex_count + n <= self.corners_upto(face_count as int),
                    self.corners_upto(face_count as int) <= u32::MAX,
                    offset_count == offsets@.len(),
                    offsets@ == fan_indices(n as int),
                    forall|q: int| 0 <= q < offsets@.len() ==> #[trigger] offsets@[q] < n,
                    indices@.len() == entry_indices.len() + k,
                    forall|q: int|
                        0 <= q < entry_indices.len() ==> #[trigger] indices@[q]
                            == entry_indices[q],
                    forall|q: int|
                        0 <= q < k ==> #[trigger] indices@[entry_indices.len() + q] as int
                            == vertex_count + offsets@[q],
            {
                indices.push((vertex_count + offsets[k]) as u32);
            }
            vertex_count = vertex_count + n;
            proof {
                assert(positions@.len() == self.corners_upto(f + 1));
                assert(indices@.len() == self.tri_indices_upto(f + 1));
                assert(positions@ == entry_positions + ngon_positions@.take(n as int));
                assert(ngon_positions@.take(n as int) =~= ngon_positions@);
                assert(positions@ =~= self.tri_positions_upto(f + 1));
                assert forall|q: int|
                    0 <= q < normals@.len() implies normals@[q] == self.tri_normals_upto(f + 1)[q]
                    by {
                    if q < entry_normals.len() {
                        assert(normals@[q] == entry_normals[q]);
                    } else {
                        let k = q - entry_normals.len();
                        assert(normals@[entry_normals.len() + k] == normal);
                    }
                }
                assert(normals@ =~= self.tri_normals_upto(f + 1));
                assert forall|q: int|
                    0 <= q < indices@.len() implies indices@[q] == self.tri_indices_seq_upto(
                    f + 1,
                )[q] by {
                    if q < entry_indices.len() {
                        assert(indices@[q] == entry_indices[q]);
                    } else {
                        let k = q - entry_indices.len();
                        assert(indices@[entry_indices.len() + k] as int == self.corners_upto(
                            f as int,
                        ) + offsets@[k]);
                        assert(Mesh::offset_fan(self.corners_upto(f as int), n as int)[k]
                            == (self.corners_upto(f as int) + fan_indices(n as int)[k]) as u32);
                        assert(0 <= fan_indices(n as int)[k] < n) by {
                            lemma_fan_indices_len(n as int);
                        }
                    }
                }
                assert(indices@ =~= self.tri_indices_seq_upto(f + 1));
                assert forall|g: int, j: int|
                    0 <= g < f + 1 && 0 <= j < self.face_degree(g) implies #[trigger] positions@[
                    self.corners_upto(g) + j] == self.face_positions(g)[j] by {
                    self.lemma_counts_nonneg(g);
                    if g < f {
                        self.lemma_counts_monotone(g + 1, f as int);
                        assert(self.corners_upto(g) + j < self.corners_upto(g + 1));
                        assert(positions@[self.corners_upto(g) + j] == entry_positions[
                        self.corners_upto(g) + j]);
                    } else {
                        assert(positions@[self.corners_upto(g) + j] == ngon_positions@[j]);
                    }
                }
                assert forall|g: int, j: int|
                    0 <= g < f + 1 && 0 <= j < self.face_degree(g) implies #[trigger] normals@[
                    self.corners_upto(g) + j] == self.faces@[g].normal->0 by {
                    self.lemma_counts_nonneg(g);
                    if g < f {
                        self.lemma_counts_monotone(g + 1, f as int);
                        assert(self.corners_upto(g) + j < self.corners_upto(g + 1));
                        assert(normals@[self.corners_upto(g) + j] == entry_normals[
                        self.corners_upto(g) + j]);
                    } else {
                        assert(normals@[entry_normals.len() + j] == self.faces@[f as int].normal
                            ->0);
                    }
                }
                assert forall|g: int, k: int|
                    0 <= g < f + 1 && 0 <= k < 3 * (self.face_degree(g) - 2)
                        implies #[trigger] indices@[self.tri_indices_upto(g) + k] as int
                    == self.corners_upto(g) + fan_indices(self.face_degree(g))[k] by {
                    self.lemma_counts_nonneg(g);
                    if g < f {
                        assert(self.wf_face(g));
                        self.lemma_counts_monotone(g + 1, f as int);
                        assert(self.tri_indices_upto(g) + k < self.tri_indices_upto(g + 1));
                        assert(indices@[self.tri_indices_upto(g) + k] == entry_indices[
                        self.tri_indices_upto(g) + k]);
                    } else {
                        assert(indices@[entry_indices.len() + k] as int == self.corners_upto(
                            f as int,
                        ) + offsets@[k]);
                    }
                }
            }
        }
        (positions, normals, indices)
    }

    /// Counts the total corners of all faces, or `None` when the count
    /// exceeds what 32-bit triangle indices can address.
    pub fn corner_count(&self) -> (r: Option<u64>)
        requires
            self.wf(),
        ensures
            match r {
                Some(c) => c == self.corners_upto(self.faces@.len() as int) && c <= u32::MAX,
                None => self.corners_upto(self.faces@.len() as int) > u32::MAX,
            },
    {
        let mut sum: u64 = 0;
        let face_count = self.faces.len();
        for f in 0..face_count
            invariant
                self.wf(),
                face_count == self.faces@.len(),
                sum == self.corners_upto(f as int),
                sum <= u32::MAX,
        {
            let verts = self.face_vertex_list(f);
            let n = verts.len();
            proof {
                assert(self.corners_upto(f + 1) == self.corners_upto(f as int) + n);
                self.lemma_counts_monotone(f + 1, face_count as int);
            }
            if n as u64 > 0xffffffffu64 - sum {
                return None;
            }
            sum = sum + (n as u64);
        }
        Some(sum)
    }

    /// Componentwise sums of a sequence of vectors.
    pub open spec fn coord_sums(s: Seq<Vec3>) -> (int, int, int)
        decreases s.len(),
    {
        if s.len() == 0 {
            (0int, 0int, 0int)
        } else {
            let (a, b, c) = Mesh::coord_sums(s.drop_last());
            (a + s.last().x, b + s.last().y, c + s.last().z)
        }
    }

    /// The planar centroid of a polygon boundary: the componentwise mean of
    /// its vertex positions, truncated toward zero.
    pub open spec fn centroid_of(s: Seq<Vec3>) -> Vec3 {
        let (a, b, c) = Mesh::coord_sums(s);
        let n = s.len() as int;
        Vec3 { x: tdiv(a, n) as i64, y: tdiv(b, n) as i64, z: tdiv(c, n) as i64 }
    }

    /// The sums of a sequence of in-bounds vectors are bounded by the count
    /// times the coordinate bound.
    proof fn lemma_coord_sums_bound(s: Seq<Vec3>)
        requires
            forall|i: int| 0 <= i < s.len() ==> (#[trigger] s[i]).in_bounds(),
        ensures
            ({
                let (a, b, c) = Mesh::coord_sums(s);
                let m = s.len() as int;
                &&& -m * MAX_COORD <= a <= m * MAX_COORD
                &&& -m * MAX_COORD <= b <= m * MAX_COORD
                &&& -m * MAX_COORD <= c <= m * MAX_COORD
            }),
        decreases s.len(),
    {
        if s.len() > 0 {
            Mesh::lemma_coord_sums_bound(s.drop_last());
            assert(s.last().in_bounds());
        }
    }

    /// Computes the componentwise mean of the given positions, truncated
    /// toward zero.
    fn compute_centroid(positions: &Vec<Vec3>) -> (r: Vec3)
        requires
            positions@.len() >= 1,
            forall|i: int| 0 <= i < positions@.len() ==> (#[trigger] positions@[i]).in_bounds(),
        ensures
            r == Mesh::centroid_of(positions@),
            r.in_bounds(),
    {
        let mut cx: i128 = 0;
        let mut cy: i128 = 0;
        let mut cz: i128 = 0;
        let count = positions.len();
        for i in 0..count
            invariant
                count == positions@.len(),
                forall|j: int|
                    0 <= j < positions@.len() ==> (#[trigger] positions@[j]).in_bounds(),
                (cx as int, cy as int, cz as int) == Mesh::coord_sums(positions@.take(i as int)),
                -(i as int) * MAX_COORD <= cx <= (i as int) * MAX_COORD,
                -(i as int) * MAX_COORD <= cy <= (i as int) * MAX_COORD,
                -(i as int) * MAX_COORD <= cz <= (i as int) * MAX_COORD,
        {
            let p = positions[i];
            cx = cx + (p.x as i128);
            cy = cy + (p.y as i128);
            cz = cz + (p.z as i128);
            proof {
                assert(positions@.take(i + 1).drop_last() =~= positions@.take(i as int));
                assert(positions@.take(i + 1).last() == positions@[i as int]);
            }
        }
        proof {
            assert(positions@.take(count as int) =~= positions@);
            lemma_mean_bound(cx as int, count as int);
            lemma_mean_bound(cy as int, count as int);
            lemma_mean_bound(cz as int, count as int);
        }
        let n128 = count as i128;
        let rx = tdiv_i128(cx, n128);
        let ry = tdiv_i128(cy, n128);
        let rz = tdiv_i128(cz, n128);
        Vec3 { x: rx as i64, y: ry as i64, z: rz as i64 }
    }

    /// Radial accumulator after the first `s` profile steps.
    pub open spec fn acc_radial(profile: Seq<(i32, i32)>, s: int) -> int
        decreases s,
    {
        if s <= 0 {
            0
        } else {
            Mesh::acc_radial(profile, s - 1) + profile[s - 1].0
        }
    }

    /// Height accumulator after the first `s` profile steps.
    pub open spec fn acc_height(profile: Seq<(i32, i32)>, s: int) -> int
        decreases s,
    {
        if s <= 0 {
            0
        } else {
            Mesh::acc_height(profile, s - 1) + profile[s - 1].1
        }
    }

    /// The direction from a boundary vertex toward the centroid of face `f`.
    pub open spec fn center_direction(pre: Mesh, f: int, k: int) -> Vec3 {
        let c = Mesh::centroid_of(pre.face_positions(f));
        let p = pre.face_positions(f)[k];
        Vec3 { x: (c.x - p.x) as i64, y: (c.y - p.y) as i64, z: (c.z - p.z) as i64 }
    }

    /// Exact coordinates of the `k`-th vertex of the `s`-th profile layer
    /// (`s >= 1`), before any machine-width cast: the original boundary
    /// vertex moved toward the face centroid by the accumulated radial steps
    /// (an eighth of a unit each) and along the face normal by the
    /// accumulated height steps (a tenth of a unit each).
    pub open spec fn profile_coords(
        pre: Mesh,
        f: int,
        profile: Seq<(i32, i32)>,
        s: int,
        k: int,
    ) -> (int, int, int) {
        let p = pre.face_positions(f)[k];
        let cdir = Mesh::center_direction(pre, f, k);
        let nrm = pre.faces@[f].normal->0;
        let dc = Mesh::acc_radial(profile, s) * (RADIAL_STEP as int);
        let dn = Mesh::acc_height(profile, s) * (HEIGHT_STEP as int);
        (
            p.x + tdiv(dc * cdir.x, SCALE as int) + tdiv(dn * nrm.x, SCALE as int),
            p.y + tdiv(dc * cdir.y, SCALE as int) + tdiv(dn * nrm.y, SCALE as int),
            p.z + tdiv(dc * cdir.z, SCALE as int) + tdiv(dn * nrm.z, SCALE as int),
        )
    }

    /// Position of the `k`-th vertex of the `s`-th profile layer.
    pub open spec fn profile_position(
        pre: Mesh,
        f: int,
        profile: Seq<(i32, i32)>,
        s: int,
        k: int,
    ) -> Vec3 {
        let (x, y, z) = Mesh::profile_coords(pre, f, profile, s, k);
        Vec3 { x: x as i64, y: y as i64, z: z as i64 }
    }

    /// Every accumulator of the profile stays within `ACC_LIMIT` and every
    /// layer coordinate stays within `MAX_COORD`: the conditions under which
    /// a profile extrusion succeeds.
    pub open spec fn profile_ok(pre: Mesh, f: int, profile: Seq<(i32, i32)>) -> bool {
        let n = pre.face_degree(f);
        forall|s: int|
            1 <= s <= profile.len() ==> {
                &&& -ACC_LIMIT <= #[trigger] Mesh::acc_radial(profile, s) <= ACC_LIMIT
                &&& -ACC_LIMIT <= Mesh::acc_height(profile, s) <= ACC_LIMIT
                &&& forall|k: int|
                    0 <= k < n ==> {
                        let (x, y, z) = #[trigger] Mesh::profile_coords(pre, f, profile, s, k);
                        &&& -MAX_COORD <= x <= MAX_COORD
                        &&& -MAX_COORD <= y <= MAX_COORD
                        &&& -MAX_COORD <= z <= MAX_COORD
                    }
            }
    }

    /// The arenas can hold the result of a profile extrusion.
    pub open spec fn profile_fits(pre: Mesh, f: int, profile: Seq<(i32, i32)>) -> bool {
        let n = pre.face_degree(f);
        let ell = profile.len() as int;
        &&& pre.vertices@.len() + ell * n <= usize::MAX
        &&& pre.half_edges@.len() + 4 * ell * n + n < usize::MAX
    }

    /// Vertex index of the `k`-th corner of layer `s` of a profile
    /// extrusion: layer `0` is the original boundary, later layers are the
    /// consecutively created duplicates.
    pub open spec fn layer_vertex(
        vs: Seq<usize>,
        first_new_vertex: int,
        n: int,
        s: int,
        k: int,
    ) -> usize {
        if s == 0 {
            vs[k]
        } else {
            (first_new_vertex + (s - 1) * n + k) as usize
        }
    }

    /// The vertex index list of side quad `j` between profile layers `t`
    /// and `t + 1`, wound `current1, current2, next2, next1`.
    pub open spec fn profile_quad(
        vs: Seq<usize>,
        first_new_vertex: int,
        n: int,
        t: int,
        j: int,
    ) -> Seq<usize> {
        seq![
            Mesh::layer_vertex(vs, first_new_vertex, n, t, j),
            Mesh::layer_vertex(vs, first_new_vertex, n, t, (j + 1) % n),
            Mesh::layer_vertex(vs, first_new_vertex, n, t + 1, (j + 1) % n),
            Mesh::layer_vertex(vs, first_new_vertex, n, t + 1, j),
        ]
    }

    /// The face-local corner indices of a fan triangulation of an `n`-gon.
    pub fn triangulate_ngon(n: usize) -> (r: Vec<usize>)
        requires
            2 <= n,
        ensures
            r@.len() == 3 * (n - 2),
            r@ == fan_indices(n as int),
            forall|k: int| 0 <= k < r@.len() ==> #[trigger] r@[k] < n,
    {
        let mut result: Vec<usize> = Vec::new();

        let first: usize = 0;
        for i in 0..(n - 2)
            invariant
                2 <= n,
                first == 0,
                result@.len() == 3 * i,
                result@ == fan_indices(i + 2),
                forall|k: int| 0 <= k < result@.len() ==> #[trigger] result@[k] < n,
        {
            let second = i + 1;
            let third = i + 2;
            let ghost entry = result@;
            result.push(first);
            result.push(second);
            result.push(third);
            proof {
                assert(entry == fan_indices(i + 2) && entry.len() == 3 * i);
                assert(result@ == entry.push(first).push(second).push(third));
                assert(((i + 3) - 2) as usize == second);
                assert(((i + 3) - 1) as usize == third);
                lemma_fan_indices_step(i + 3);
                let target = fan_indices(i + 3);
                assert(target == fan_indices(i + 2).push(0usize).push(((i + 3) - 2) as usize).push(
                    ((i + 3) - 1) as usize));
                assert(target.len() == result@.len());
                assert forall|k: int| 0 <= k < result@.len() implies result@[k] == target[k] by {
                    if k < 3 * i {
                        assert(result@[k] == entry[k]);
                        assert(target[k] == entry[k]);
                    } else if k == 3 * i {
                        assert(result@[k] == first);
                        assert(target[k] == 0usize);
                    } else if k == 3 * i + 1 {
                        assert(result@[k] == second);
                        assert(target[k] == ((i + 3) - 2) as usize);
                    } else {
                        assert(k == 3 * i + 2);
                        assert(result@[k] == third);
                        assert(target[k] == ((i + 3) - 1) as usize);
                    }
                }
                assert(result@ =~= target);
            }
        }
        proof {
            lemma_fan_indices_len(n as int);
        }
        result
    }
}

/// The mean of `n` values bounded by `MAX_COORD` is bounded by `MAX_COORD`.
proof fn lemma_mean_bound(a: int, n: int)
    requires
        1 <= n,
        -n * MAX_COORD <= a <= n * MAX_COORD,
    ensures
        -MAX_COORD <= tdiv(a, n) <= MAX_COORD,
{
    vstd::arithmetic::div_mod::lemma_div_by_multiple(MAX_COORD as int, n);
    if a >= 0 {
        vstd::arithmetic::div_mod::lemma_div_is_ordered(a, n * MAX_COORD, n);
        vstd::arithmetic::div_mod::lemma_div_pos_is_pos(a, n);
        assert(n * MAX_COORD == MAX_COORD * n);
    } else {
        vstd::arithmetic::div_mod::lemma_div_is_ordered(-a, n * MAX_COORD, n);
        vstd::arithmetic::div_mod::lemma_div_pos_is_pos(-a, n);
        assert(n * MAX_COORD == MAX_COORD * n);
    }
}

/// The fixed-point product of a bounded distance and a unit-bounded
/// direction component stays within the coordinate bound.
proof fn lemma_offset_term_bound(d: int, c: int)
    requires
        -MAX_COORD <= d <= MAX_COORD,
        -SCALE <= c <= SCALE,
    ensures
        -MAX_COORD <= tdiv(d * c, SCALE as int) <= MAX_COORD,
{
    assert(-(MAX_COORD * SCALE) <= d * c <= MAX_COORD * SCALE) by (nonlinear_arith)
        requires
            -MAX_COORD <= d <= MAX_COORD,
            -SCALE <= c <= SCALE,
    ;
    if d * c >= 0 {
        vstd::arithmetic::div_mod::lemma_div_is_ordered(d * c, MAX_COORD * SCALE, SCALE as int);
        vstd::arithmetic::div_mod::lemma_div_by_multiple(MAX_COORD as int, SCALE as int);
        vstd::arithmetic::div_mod::lemma_div_pos_is_pos(d * c, SCALE as int);
    } else {
        vstd::arithmetic::div_mod::lemma_div_is_ordered(-(d * c), MAX_COORD * SCALE, SCALE as int);
        vstd::arithmetic::div_mod::lemma_div_by_multiple(MAX_COORD as int, SCALE as int);
        vstd::arithmetic::div_mod::lemma_div_pos_is_pos(-(d * c), SCALE as int);
    }
}

/// The cross product of the two edge vectors from `b` to `a` and from
/// `b` to `c`: the unnormalized normal direction of the triangle
/// `a, b, c`.
#[verifier::opaque]
pub open spec fn cross_of_triple(a: Vec3, b: Vec3, c: Vec3) -> (int, int, int) {
    let bax = a.x - b.x;
    let bay = a.y - b.y;
    let baz = a.z - b.z;
    let bcx = c.x - b.x;
    let bcy = c.y - b.y;
    let bcz = c.z - b.z;
    (bcy * baz - bcz * bay, bcz * bax - bcx * baz, bcx * bay - bcy * bax)
}

/// The squared length of the cross product of the triangle `a, b, c`.
pub open spec fn cross_sq_of_triple(a: Vec3, b: Vec3, c: Vec3) -> int {
    let (nx, ny, nz) = cross_of_triple(a, b, c);
    nx * nx + ny * ny + nz * nz
}

/// The fixed-point unit normal of the triangle `a, b, c`: its cross
/// product scaled by `SCALE` and divided (truncating toward zero) by its
/// euclidean length rounded down to an integer.
pub open spec fn normal_of_triple(a: Vec3, b: Vec3, c: Vec3) -> Vec3 {
    let (nx, ny, nz) = cross_of_triple(a, b, c);
    let len = isqrt((nx * nx + ny * ny + nz * nz) as nat) as int;
    Vec3 {
        x: tdiv(nx * SCALE, len) as i64,
        y: tdiv(ny * SCALE, len) as i64,
        z: tdiv(nz * SCALE, len) as i64,
    }
}

/// A face's cross product and computed normal are those of its first
/// three boundary positions.
pub proof fn lemma_face_geometry(m: Mesh, f: int)
    requires
        m.wf(),
        0 <= f < m.faces@.len(),
    ensures
        m.face_cross(f) == cross_of_triple(
            m.face_positions(f)[0],
            m.face_positions(f)[1],
            m.face_positions(f)[2],
        ),
        m.computed_normal(f) == normal_of_triple(
            m.face_positions(f)[0],
            m.face_positions(f)[1],
            m.face_positions(f)[2],
        ),
{
    assert(m.wf_face(f));
    let s = m.face_start(f);
    assert(m.face_vertices(f)[0] == m.half_edges@[s].from_vertex);
    assert(m.face_vertices(f)[1] == m.half_edges@[s + 1].from_vertex);
    assert(m.face_vertices(f)[2] == m.half_edges@[s + 2].from_vertex);
}

/// A point offset along a direction: each component moves by the
/// fixed-point product of `d` and the direction component.
pub open spec fn offset_along(p: Vec3, d: int, direction: Vec3) -> Vec3 {
    Vec3 {
        x: (p.x + tdiv(d * direction.x, SCALE as int)) as i64,
        y: (p.y + tdiv(d * direction.y, SCALE as int)) as i64,
        z: (p.z + tdiv(d * direction.z, SCALE as int)) as i64,
    }
}

/// A face's boundary (its span, vertex list and positions) is unchanged by
/// operations that only append to the arenas.
pub proof fn lemma_face_boundary_frame(m1: Mesh, m2: Mesh, f: int)
    requires
        m1.wf(),
        0 <= f < m1.faces@.len(),
        m1.faces@.len() <= m2.faces@.len(),
        m1.spans@.len() == m1.faces@.len(),
        m2.spans@.len() == m2.faces@.len(),
        forall|g: int| 0 <= g < m1.spans@.len() ==> #[trigger] m2.spans@[g] == m1.spans@[g],
        m1.half_edges@.len() <= m2.half_edges@.len(),
        forall|e: int|
            0 <= e < m1.half_edges@.len() ==> #[trigger] m2.half_edges@[e] == m1.half_edges@[e],
        m1.vertices@.len() <= m2.vertices@.len(),
        forall|v: int|
            0 <= v < m1.vertices@.len() ==> (#[trigger] m2.vertices@[v]).position
                == m1.vertices@[v].position,
    ensures
        m2.face_start(f) == m1.face_start(f),
        m2.face_degree(f) == m1.face_degree(f),
        m2.face_vertices(f) == m1.face_vertices(f),
        m2.face_positions(f) == m1.face_positions(f),
{
    assert(m1.wf_face(f));
    assert(m2.face_vertices(f) =~= m1.face_vertices(f));
    assert forall|i: int|
        0 <= i < m1.face_degree(f) implies #[trigger] m2.face_positions(f)[i]
        == m1.face_positions(f)[i] by {
        assert(m1.face_vertices(f)[i] < m1.vertices@.len());
    }
    assert(m2.face_positions(f) =~= m1.face_positions(f));
}

/// One pass of normal computation moves no boundary: every face keeps
/// its degree, vertex list and positions.
pub proof fn lemma_normals_preserve_boundaries(pre: Mesh, post: Mesh)
    requires
        pre.wf(),
        Mesh::normals_computed_from(pre, post),
    ensures
        forall|f: int|
            0 <= f < pre.faces@.len() ==> #[trigger] post.face_degree(f) == pre.face_degree(f),
        forall|f: int|
            0 <= f < pre.faces@.len() ==> #[trigger] post.face_vertices(f) == pre.face_vertices(
                f,
            ),
        forall|f: int|
            0 <= f < pre.faces@.len() ==> #[trigger] post.face_positions(f)
                == pre.face_positions(f),
{
    assert forall|f: int|
        0 <= f < pre.faces@.len() implies #[trigger] post.face_degree(f) == pre.face_degree(f)
        && #[trigger] post.face_vertices(f) == pre.face_vertices(f)
        && #[trigger] post.face_positions(f) == pre.face_positions(f) by {
        lemma_face_boundary_frame(pre, post, f);
    }
}

/// The cross-product terms of two edge vectors of in-bounds positions fit
/// comfortably inside `i128`, as do their squares and the sum of squares.
proof fn lemma_cross_term_bounds(bax: int, bay: int, baz: int, bcx: int, bcy: int, bcz: int)
    requires
        -2 * MAX_COORD <= bax <= 2 * MAX_COORD,
        -2 * MAX_COORD <= bay <= 2 * MAX_COORD,
        -2 * MAX_COORD <= baz <= 2 * MAX_COORD,
        -2 * MAX_COORD <= bcx <= 2 * MAX_COORD,
        -2 * MAX_COORD <= bcy <= 2 * MAX_COORD,
        -2 * MAX_COORD <= bcz <= 2 * MAX_COORD,
    ensures
        -1000000000000000000 <= bcy * baz <= 1000000000000000000,
        -1000000000000000000 <= bcz * bay <= 1000000000000000000,
        -1000000000000000000 <= bcz * bax <= 1000000000000000000,
        -1000000000000000000 <= bcx * baz <= 1000000000000000000,
        -1000000000000000000 <= bcx * bay <= 1000000000000000000,
        -1000000000000000000 <= bcy * bax <= 1000000000000000000,
        -2000000000000000000 <= bcy * baz - bcz * bay <= 2000000000000000000,
        -2000000000000000000 <= bcz * bax - bcx * baz <= 2000000000000000000,
        -2000000000000000000 <= bcx * bay - bcy * bax <= 2000000000000000000,
{
    assert forall|p: int, q: int|
        -1000000000 <= p <= 1000000000 && -1000000000 <= q <= 1000000000 implies -1000000000000000000
        <= #[trigger] (p * q) <= 1000000000000000000 by {
        assert(-1000000000000000000 <= p * q <= 1000000000000000000) by (nonlinear_arith)
            requires
                -1000000000 <= p <= 1000000000,
                -1000000000 <= q <= 1000000000,
        ;
    }
}

/// The square of a cross-product component stays within `i128`.
proof fn lemma_square_bound(n: int)
    requires
        -2000000000000000000 <= n <= 2000000000000000000,
    ensures
        0 <= n * n <= 4000000000000000000000000000000000000,
{
    assert(0 <= n * n <= 4000000000000000000000000000000000000) by (nonlinear_arith)
        requires
            -2000000000000000000 <= n <= 2000000000000000000,
    ;
}

/// Each cross component's square is at most the sum of squares, so each
/// component's magnitude is at most the integer square root of that sum.
proof fn lemma_component_le_sqrt(n: int, len2: nat, len: nat)
    requires
        n * n <= len2,
        len * len <= len2 < (len + 1) * (len + 1),
    ensures
        -(len as int) <= n <= len as int,
{
    assert(-(len as int) <= n <= len as int) by (nonlinear_arith)
        requires
            n * n <= len2,
            len * len <= len2 < (len + 1) * (len + 1),
    ;
}

/// Dividing `n * SCALE` by `len` truncating toward zero gives a value of
/// magnitude at most `SCALE` whenever the component magnitude is at most
/// `len`.
proof fn lemma_scaled_component_bound(n: int, len: int)
    requires
        0 < len,
        -len <= n <= len,
    ensures
        -SCALE <= tdiv(n * SCALE, len) <= SCALE,
{
    if n >= 0 {
        assert(n * SCALE <= len * SCALE) by (nonlinear_arith)
            requires
                0 <= n <= len,
        ;
        vstd::arithmetic::div_mod::lemma_div_is_ordered(n * SCALE, len * SCALE, len);
        vstd::arithmetic::div_mod::lemma_div_by_multiple(SCALE as int, len);
        vstd::arithmetic::div_mod::lemma_div_pos_is_pos(n * SCALE, len);
        assert(n * SCALE >= 0) by (nonlinear_arith)
            requires
                n >= 0,
        ;
    } else {
        assert((-n) * SCALE <= len * SCALE) by (nonlinear_arith)
            requires
                0 <= -n <= len,
        ;
        assert(-(n * SCALE) == (-n) * SCALE) by (nonlinear_arith);
        vstd::arithmetic::div_mod::lemma_div_is_ordered((-n) * SCALE, len * SCALE, len);
        vstd::arithmetic::div_mod::lemma_div_by_multiple(SCALE as int, len);
        vstd::arithmetic::div_mod::lemma_div_pos_is_pos((-n) * SCALE, len);
        assert((-n) * SCALE >= 0) by (nonlinear_arith)
            requires
                -n >= 0,
        ;
    }
}

} // verus!
