//! The tiling description: basis tables, seeds, profiles and materials.
//!
//! A tiling is described by an integer 4-dimensional lattice. Each of the
//! twelve directions around a lattice point carries a fixed integer
//! 4-vector step (`BASIS` coefficients) and a projected 3D direction used
//! to place lattice points in space.

use vstd::prelude::*;

use crate::vec3::{Vec3, SCALE, MAX_COORD};

verus! {

/// A point (or step) of the rank-4 integer lattice.
pub type TilingVector = (i64, i64, i64, i64);

/// Largest lattice coordinate magnitude a valid tiling may hold.
pub const LATTICE_LIMIT: i64 = 1099511627776;

/// Largest number of seeds a valid tiling may hold.
pub const MAX_SEEDS: usize = 1000000;

/// The twelve projected 3D directions at thirty-degree increments on the
/// unit circle in the XY-plane, in fixed-point micro-units (`866025`
/// stands for half the square root of three).
pub open spec fn twelfth_root_basis() -> Seq<Vec3> {
    seq![
        Vec3 { x: 1000000i64, y: 0i64, z: 0i64 },
        Vec3 { x: 866025i64, y: 500000i64, z: 0i64 },
        Vec3 { x: 500000i64, y: 866025i64, z: 0i64 },
        Vec3 { x: 0i64, y: 1000000i64, z: 0i64 },
        Vec3 { x: -500000i64, y: 866025i64, z: 0i64 },
        Vec3 { x: -866025i64, y: 500000i64, z: 0i64 },
        Vec3 { x: -1000000i64, y: 0i64, z: 0i64 },
        Vec3 { x: -866025i64, y: -500000i64, z: 0i64 },
        Vec3 { x: -500000i64, y: -866025i64, z: 0i64 },
        Vec3 { x: 0i64, y: -1000000i64, z: 0i64 },
        Vec3 { x: 500000i64, y: -866025i64, z: 0i64 },
        Vec3 { x: 866025i64, y: -500000i64, z: 0i64 },
    ]
}

/// Twelve fixed rational 2D directions: a rectilinear approximation of the
/// circle, useful for debugging on graph paper.
pub open spec fn graph_paper_basis() -> Seq<Vec3> {
    seq![
        Vec3 { x: 1000000i64, y: 0i64, z: 0i64 },
        Vec3 { x: 1000000i64, y: 500000i64, z: 0i64 },
        Vec3 { x: 500000i64, y: 1000000i64, z: 0i64 },
        Vec3 { x: 0i64, y: 1000000i64, z: 0i64 },
        Vec3 { x: -500000i64, y: 1000000i64, z: 0i64 },
        Vec3 { x: -1000000i64, y: 500000i64, z: 0i64 },
        Vec3 { x: -1000000i64, y: 0i64, z: 0i64 },
        Vec3 { x: -1000000i64, y: -500000i64, z: 0i64 },
        Vec3 { x: -500000i64, y: -1000000i64, z: 0i64 },
        Vec3 { x: 0i64, y: -1000000i64, z: 0i64 },
        Vec3 { x: 500000i64, y: -1000000i64, z: 0i64 },
        Vec3 { x: 1000000i64, y: -500000i64, z: 0i64 },
    ]
}

/// The fixed integer 4-vector lattice step of each of the twelve
/// directions, shared by every basis choice.
pub open spec fn basis_coefficients() -> Seq<TilingVector> {
    seq![
        (1i64, 0i64, 0i64, 0i64),
        (0i64, 1i64, 0i64, 0i64),
        (0i64, 0i64, 1i64, 0i64),
        (0i64, 0i64, 0i64, 1i64),
        (-1i64, 0i64, 1i64, 0i64),
        (0i64, -1i64, 0i64, 1i64),
        (-1i64, 0i64, 0i64, 0i64),
        (0i64, -1i64, 0i64, 0i64),
        (0i64, 0i64, -1i64, 0i64),
        (0i64, 0i64, 0i64, -1i64),
        (1i64, 0i64, -1i64, 0i64),
        (0i64, 1i64, 0i64, -1i64),
    ]
}

/// Builds the continuous twelve-direction basis table.
pub fn make_twelfth_root_basis() -> (r: Vec<Vec3>)
    ensures
        r@ == twelfth_root_basis(),
{
    let mut result: Vec<Vec3> = Vec::new();
    result.push(Vec3 { x: 1000000, y: 0, z: 0 });
    result.push(Vec3 { x: 866025, y: 500000, z: 0 });
    result.push(Vec3 { x: 500000, y: 866025, z: 0 });
    result.push(Vec3 { x: 0, y: 1000000, z: 0 });
    result.push(Vec3 { x: -500000, y: 866025, z: 0 });
    result.push(Vec3 { x: -866025, y: 500000, z: 0 });
    result.push(Vec3 { x: -1000000, y: 0, z: 0 });
    result.push(Vec3 { x: -866025, y: -500000, z: 0 });
    result.push(Vec3 { x: -500000, y: -866025, z: 0 });
    result.push(Vec3 { x: 0, y: -1000000, z: 0 });
    result.push(Vec3 { x: 500000, y: -866025, z: 0 });
    result.push(Vec3 { x: 866025, y: -500000, z: 0 });
    proof {
        assert(result@ =~= twelfth_root_basis());
    }
    result
}

/// Which projection basis a tiling uses.
#[derive(Clone, Copy, PartialEq, Eq, Structural, Debug)]
pub enum Basis {
    TwelfthRoot,
    GraphPaper,
}

impl Basis {
    /// The twelve projected directions of this basis choice.
    pub open spec fn basis_seq(self) -> Seq<Vec3> {
        match self {
            Basis::TwelfthRoot => twelfth_root_basis(),
            Basis::GraphPaper => graph_paper_basis(),
        }
    }

    pub fn get_basis(&self) -> (r: Vec<Vec3>)
        ensures
            r@ == self.basis_seq(),
            r@.len() == 12,
    {
        match self {
            Basis::TwelfthRoot => make_twelfth_root_basis(),
            Basis::GraphPaper => {
                let mut result: Vec<Vec3> = Vec::new();
                result.push(Vec3 { x: 1000000, y: 0, z: 0 });
                result.push(Vec3 { x: 1000000, y: 500000, z: 0 });
                result.push(Vec3 { x: 500000, y: 1000000, z: 0 });
                result.push(Vec3 { x: 0, y: 1000000, z: 0 });
                result.push(Vec3 { x: -500000, y: 1000000, z: 0 });
                result.push(Vec3 { x: -1000000, y: 500000, z: 0 });
                result.push(Vec3 { x: -1000000, y: 0, z: 0 });
                result.push(Vec3 { x: -1000000, y: -500000, z: 0 });
                result.push(Vec3 { x: -500000, y: -1000000, z: 0 });
                result.push(Vec3 { x: 0, y: -1000000, z: 0 });
                result.push(Vec3 { x: 500000, y: -1000000, z: 0 });
                result.push(Vec3 { x: 1000000, y: -500000, z: 0 });
                proof {
                    assert(result@ =~= graph_paper_basis());
                }
                result
            },
        }
    }

    /// The twelve lattice steps, identical for every basis choice.
    pub fn get_coefficients(&self) -> (r: Vec<TilingVector>)
        ensures
            r@ == basis_coefficients(),
            r@.len() == 12,
    {
        let mut result: Vec<TilingVector> = Vec::new();
        result.push((1, 0, 0, 0));
        result.push((0, 1, 0, 0));
        result.push((0, 0, 1, 0));
        result.push((0, 0, 0, 1));
        result.push((-1, 0, 1, 0));
        result.push((0, -1, 0, 1));
        result.push((-1, 0, 0, 0));
        result.push((0, -1, 0, 0));
        result.push((0, 0, -1, 0));
        result.push((0, 0, 0, -1));
        result.push((1, 0, -1, 0));
        result.push((0, 1, 0, -1));
        proof {
            assert(result@ =~= basis_coefficients());
        }
        result
    }
}

/// A named sequence of relative (radial-step, height-step) deltas that
/// describes a tower's silhouette.
pub struct Profile {
    pub name: Option<String>,
    pub offsets: Vec<(i32, i32)>,
}

/// A minimal PBR material description, all factors in fixed-point
/// micro-units.
#[derive(Clone, Copy, PartialEq, Eq, Structural, Debug)]
pub struct Material {
    pub base_color: Vec3,
    pub metallic: i64,
    pub roughness: i64,
}

/// A face declared against one seed: a side count (informational), an
/// optional profile index and a material index.
#[derive(Clone, Copy, PartialEq, Eq, Structural, Debug)]
pub struct TilingFace {
    pub sides: usize,
    pub profile: Option<usize>,
    pub material: usize,
}

/// One seed lattice point, with its optional list of declared faces.
pub struct Seed {
    pub position: TilingVector,
    pub faces: Option<Vec<TilingFace>>,
}

/// A complete tiling description.
pub struct IntegerTiling {
    pub basis: Basis,
    pub translations: [TilingVector; 2],
    pub seeds: Vec<Seed>,
    pub profiles: Vec<Profile>,
    pub materials: Vec<Material>,
}

/// A lattice point lies within the coordinate limit.
pub open spec fn lattice_in_bounds(p: TilingVector) -> bool {
    &&& -LATTICE_LIMIT <= p.0 <= LATTICE_LIMIT
    &&& -LATTICE_LIMIT <= p.1 <= LATTICE_LIMIT
    &&& -LATTICE_LIMIT <= p.2 <= LATTICE_LIMIT
    &&& -LATTICE_LIMIT <= p.3 <= LATTICE_LIMIT
}

impl IntegerTiling {
    /// The declared faces of seed `i` reference only profiles that exist.
    pub open spec fn seed_faces_ok(self, i: int) -> bool {
        self.seeds@[i].faces matches Some(fs) ==> forall|k: int|
            0 <= k < fs@.len() ==> ((#[trigger] fs@[k]).profile matches Some(p) ==> p
                < self.profiles@.len())
    }

    /// A tiling description the generator accepts: bounded lattice
    /// coordinates, a bounded seed count, and declared profile references
    /// in range.
    pub open spec fn wf(self) -> bool {
        &&& self.seeds@.len() <= MAX_SEEDS
        &&& lattice_in_bounds(self.translations@[0])
        &&& lattice_in_bounds(self.translations@[1])
        &&& forall|i: int|
            0 <= i < self.seeds@.len() ==> lattice_in_bounds(
                (#[trigger] self.seeds@[i]).position,
            )
        &&& forall|i: int| 0 <= i < self.seeds@.len() ==> self.seed_faces_ok(i)
    }

    /// Checks `wf` at run time, so that unvalidated descriptions can be
    /// rejected before the generator runs.
    pub fn validate(&self) -> (r: bool)
        ensures
            r == self.wf(),
    {
        if self.seeds.len() > MAX_SEEDS {
            return false;
        }
        let (a1, b1, c1, d1) = self.translations[0];
        let (a2, b2, c2, d2) = self.translations[1];
        if !lattice_component_ok(a1) || !lattice_component_ok(b1) || !lattice_component_ok(c1)
            || !lattice_component_ok(d1) || !lattice_component_ok(a2) || !lattice_component_ok(b2)
            || !lattice_component_ok(c2) || !lattice_component_ok(d2) {
            return false;
        }
        let seed_count = self.seeds.len();
        for i in 0..seed_count
            invariant
                seed_count == self.seeds@.len(),
                forall|q: int|
                    0 <= q < i ==> lattice_in_bounds((#[trigger] self.seeds@[q]).position),
                forall|q: int| 0 <= q < i ==> self.seed_faces_ok(q),
        {
            let (a, b, c, d) = self.seeds[i].position;
            if !lattice_component_ok(a) || !lattice_component_ok(b) || !lattice_component_ok(c)
                || !lattice_component_ok(d) {
                return false;
            }
            match &self.seeds[i].faces {
                Some(fs) => {
                    let face_count = fs.len();
                    for k in 0..face_count
                        invariant
                            i < self.seeds@.len(),
                            face_count == fs@.len(),
                            self.seeds@[i as int].faces is Some,
                            fs@ == self.seeds@[i as int].faces->0@,
                            forall|q: int|
                                0 <= q < k ==> ((#[trigger] fs@[q]).profile matches Some(p) ==> p
                                    < self.profiles@.len()),
                    {
                        match fs[k].profile {
                            Some(p) => {
                                if p >= self.profiles.len() {
                                    proof {
                                        assert(self.seeds@[i as int].faces->0@[k as int].profile
                                            == Some(p));
                                        assert(!self.seed_faces_ok(i as int));
                                    }
                                    return false;
                                }
                            },
                            None => {},
                        }
                    }
                },
                None => {},
            }
        }
        true
    }
}

/// One lattice coordinate lies within the limit.
fn lattice_component_ok(v: i64) -> (r: bool)
    ensures
        r == (-LATTICE_LIMIT <= v <= LATTICE_LIMIT),
{
    -LATTICE_LIMIT <= v && v <= LATTICE_LIMIT
}

} // verus!
