//! Procedural generation of 3D tower meshes over an aperiodic plane
//! tiling, serialized to a chunked binary asset container.
//!
//! The pipeline has three stages: an index-addressed half-edge mesh kernel
//! (`mesh`), an integer-lattice tiling generator that projects a rank-4
//! lattice into 3D and traces one polygon per face wedge (`tiling`,
//! `tiling_mesh`), and a binary asset writer that packs the triangulated
//! towers into a length-prefixed container with byte-exact offsets
//! (`gltf`). All geometry is carried in signed fixed-point micro-units
//! (`vec3`), so every stage is verified end to end.

mod f32enc;
mod gltf;
mod json;
mod mesh;
mod tiling;
mod tiling_mesh;
mod towers;
mod vec3;

pub use f32enc::{f32_bits, F32_INPUT_LIMIT};
pub use gltf::{Accessor, AccessorKind, AccessorName, BufferView, Gltf, GltfError, Instances,
    Primitive};
pub use mesh::{Face, FaceEdgeIter, HalfEdge, Mesh, MeshError, Vertex};
pub use tiling::{make_twelfth_root_basis, Basis, IntegerTiling, Material, Profile, Seed,
    TilingFace, TilingVector};
pub use tiling_mesh::{CloudVertex, TilingError, TilingMesh};
pub use towers::TowerTiling;
pub use vec3::{Vec3, MAX_COORD, SCALE};
