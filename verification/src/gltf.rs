//! The binary asset writer.
//!
//! Serializes triangulated meshes and materials into a self-contained
//! chunked binary container: a 12-byte header, a JSON chunk padded with
//! spaces to a 4-byte boundary, and a binary chunk of packed attribute
//! data. Buffer views are packed contiguously with no padding, which is
//! valid because every packed element is itself 4 bytes wide.

use vstd::prelude::*;
use vstd::string::StringSliceAdditionalSpecFns;

use crate::f32enc::{f32_bits, f32_bits_of, F32_INPUT_LIMIT};
use crate::json::{dec_fixed, dec_u64, push_fixed, push_str_bytes, push_u64, push_usize};
use crate::mesh::Mesh;
use crate::tiling::Material;
use crate::vec3::{Vec3, MAX_COORD};

verus! {

/// Component type code for 32-bit floats.
pub const GLTF_FLOAT: u32 = 5126;

/// Component type code for 32-bit unsigned integers.
pub const GLTF_UNSIGNED_INT: u32 = 5125;

/// Buffer-view target hint for vertex attribute data.
pub const GLTF_TARGET_ARRAY_BUFFER: u32 = 34962;

/// Buffer-view target hint for index data.
pub const GLTF_TARGET_ELEMENT_ARRAY_BUFFER: u32 = 34963;

/// A failure of the asset writer: the data outgrew an address space or
/// format limit.
#[derive(Clone, Copy, PartialEq, Eq, Structural, Debug)]
pub enum GltfError {
    TooLarge,
}

/// The name carried by a buffer view and its accessor.
#[derive(Clone, Copy, PartialEq, Eq, Structural, Debug)]
pub enum AccessorName {
    Position,
    Normals,
    Indices,
    InstanceTranslation,
}

/// The JSON text of an accessor or view name.
pub open spec fn name_bytes(n: AccessorName) -> Seq<u8> {
    match n {
        AccessorName::Position => "Position".spec_bytes(),
        AccessorName::Normals => "Normals".spec_bytes(),
        AccessorName::Indices => "Indices".spec_bytes(),
        AccessorName::InstanceTranslation => "Instance TRANSLATION".spec_bytes(),
    }
}

/// Appends the JSON text of a name.
fn push_name(out: &mut Vec<u8>, n: AccessorName)
    ensures
        final(out)@ == old(out)@ + name_bytes(n),
{
    match n {
        AccessorName::Position => push_str_bytes(out, "Position"),
        AccessorName::Normals => push_str_bytes(out, "Normals"),
        AccessorName::Indices => push_str_bytes(out, "Indices"),
        AccessorName::InstanceTranslation => push_str_bytes(out, "Instance TRANSLATION"),
    }
}

/// The element type tag of an accessor.
#[derive(Clone, Copy, PartialEq, Eq, Structural, Debug)]
pub enum AccessorKind {
    Scalar,
    Vector3,
}

/// The JSON text of an element type tag.
pub open spec fn kind_bytes(k: AccessorKind) -> Seq<u8> {
    match k {
        AccessorKind::Scalar => "SCALAR".spec_bytes(),
        AccessorKind::Vector3 => "VEC3".spec_bytes(),
    }
}

/// Appends the JSON text of an element type tag.
fn push_kind(out: &mut Vec<u8>, k: AccessorKind)
    ensures
        final(out)@ == old(out)@ + kind_bytes(k),
{
    match k {
        AccessorKind::Scalar => push_str_bytes(out, "SCALAR"),
        AccessorKind::Vector3 => push_str_bytes(out, "VEC3"),
    }
}

/// A contiguous byte range within the single embedded buffer.
#[derive(Clone, Copy, PartialEq, Eq, Structural, Debug)]
pub struct BufferView {
    pub name: AccessorName,
    pub byte_offset: usize,
    pub byte_length: usize,
    pub target: u32,
}

impl BufferView {
    /// The first byte offset after this view.
    pub fn after_offset(&self) -> (r: usize)
        requires
            self.byte_offset + self.byte_length <= usize::MAX,
        ensures
            r == self.byte_offset + self.byte_length,
    {
        self.byte_offset + self.byte_length
    }
}

/// A typed, counted view into a buffer region.
#[derive(Clone, Copy, PartialEq, Eq, Structural, Debug)]
pub struct Accessor {
    pub name: AccessorName,
    pub buffer_view: usize,
    pub accessor_kind: AccessorKind,
    pub component_type: u32,
    pub count: usize,
    pub min: Option<Vec3>,
    pub max: Option<Vec3>,
}

/// One mesh primitive: a material, its attribute accessors and its index
/// accessor.
#[derive(Clone, Copy, PartialEq, Eq, Structural, Debug)]
pub struct Primitive {
    pub material: usize,
    pub indices: usize,
    pub position: usize,
    pub normal: usize,
}

/// The per-instance translation accessor of the one instanced node.
#[derive(Clone, Copy, PartialEq, Eq, Structural, Debug)]
pub struct Instances {
    pub translation: usize,
}

/// Little-endian bytes of a 32-bit word.
pub open spec fn le4(w: u32) -> Seq<u8> {
    seq![
        (w % 256) as u8,
        ((w / 256) % 256) as u8,
        ((w / 65536) % 256) as u8,
        ((w / 16777216) % 256) as u8,
    ]
}

/// Appends the little-endian bytes of a 32-bit word.
fn push_le4(out: &mut Vec<u8>, w: u32)
    ensures
        final(out)@ == old(out)@ + le4(w),
{
    out.push((w % 256) as u8);
    out.push(((w / 256) % 256) as u8);
    out.push(((w / 65536) % 256) as u8);
    out.push(((w / 16777216) % 256) as u8);
    proof {
        assert(final(out)@ =~= old(out)@ + le4(w));
    }
}

/// The packed little-endian 32-bit float encoding of a vector sequence:
/// twelve bytes per vector.
pub open spec fn packed_vec3s(s: Seq<Vec3>) -> Seq<u8>
    decreases s.len(),
{
    if s.len() == 0 {
        Seq::empty()
    } else {
        packed_vec3s(s.drop_last()) + le4(f32_bits_of(s.last().x as int)) + le4(
            f32_bits_of(s.last().y as int),
        ) + le4(f32_bits_of(s.last().z as int))
    }
}

/// The packed sequence holds twelve bytes per vector.
pub proof fn lemma_packed_vec3s_len(s: Seq<Vec3>)
    ensures
        packed_vec3s(s).len() == 12 * s.len(),
    decreases s.len(),
{
    if s.len() > 0 {
        lemma_packed_vec3s_len(s.drop_last());
    }
}

/// The packed little-endian encoding of an index sequence: four bytes per
/// index.
pub open spec fn packed_indices(s: Seq<u32>) -> Seq<u8>
    decreases s.len(),
{
    if s.len() == 0 {
        Seq::empty()
    } else {
        packed_indices(s.drop_last()) + le4(s.last())
    }
}

/// The packed sequence holds four bytes per index.
pub proof fn lemma_packed_indices_len(s: Seq<u32>)
    ensures
        packed_indices(s).len() == 4 * s.len(),
    decreases s.len(),
{
    if s.len() > 0 {
        lemma_packed_indices_len(s.drop_last());
    }
}

/// Componentwise minimum of a nonempty vector sequence.
pub open spec fn min_of(s: Seq<Vec3>) -> Vec3
    decreases s.len(),
{
    if s.len() <= 1 {
        s[0]
    } else {
        let rest = min_of(s.drop_last());
        let v = s.last();
        Vec3 {
            x: if v.x < rest.x {
                v.x
            } else {
                rest.x
            },
            y: if v.y < rest.y {
                v.y
            } else {
                rest.y
            },
            z: if v.z < rest.z {
                v.z
            } else {
                rest.z
            },
        }
    }
}

/// Componentwise maximum of a nonempty vector sequence.
pub open spec fn max_of(s: Seq<Vec3>) -> Vec3
    decreases s.len(),
{
    if s.len() <= 1 {
        s[0]
    } else {
        let rest = max_of(s.drop_last());
        let v = s.last();
        Vec3 {
            x: if v.x > rest.x {
                v.x
            } else {
                rest.x
            },
            y: if v.y > rest.y {
                v.y
            } else {
                rest.y
            },
            z: if v.z > rest.z {
                v.z
            } else {
                rest.z
            },
        }
    }
}

/// The JSON object of one material, in PBR metallic-roughness shape: the
/// base color as four factors with alpha fixed at one, then the metallic
/// and roughness factors. Object keys are in lexicographic order.
pub open spec fn material_json(m: Material) -> Seq<u8> {
    "{\"pbrMetallicRoughness\":{\"baseColorFactor\":[".spec_bytes() + dec_fixed(
        m.base_color.x as int,
    ) + ",".spec_bytes() + dec_fixed(m.base_color.y as int) + ",".spec_bytes() + dec_fixed(
        m.base_color.z as int,
    ) + ",1.000000],\"metallicFactor\":".spec_bytes() + dec_fixed(m.metallic as int)
        + ",\"roughnessFactor\":".spec_bytes() + dec_fixed(m.roughness as int)
        + "}}".spec_bytes()
}

/// Every factor of the material can be negated without overflow.
pub open spec fn material_bounded(m: Material) -> bool {
    &&& i64::MIN < m.base_color.x
    &&& i64::MIN < m.base_color.y
    &&& i64::MIN < m.base_color.z
    &&& i64::MIN < m.metallic
    &&& i64::MIN < m.roughness
}

impl Material {
    /// Appends this material's JSON object.
    pub fn to_json(&self, out: &mut Vec<u8>)
        requires
            material_bounded(*self),
        ensures
            final(out)@ == old(out)@ + material_json(*self),
    {
        push_str_bytes(out, "{\"pbrMetallicRoughness\":{\"baseColorFactor\":[");
        push_fixed(out, self.base_color.x);
        push_str_bytes(out, ",");
        push_fixed(out, self.base_color.y);
        push_str_bytes(out, ",");
        push_fixed(out, self.base_color.z);
        push_str_bytes(out, ",1.000000],\"metallicFactor\":");
        push_fixed(out, self.metallic);
        push_str_bytes(out, ",\"roughnessFactor\":");
        push_fixed(out, self.roughness);
        push_str_bytes(out, "}}");
        proof {
            assert(final(out)@ =~= old(out)@ + material_json(*self));
        }
    }
}

/// The JSON object of one buffer view. Keys are in lexicographic order;
/// the one embedded buffer is always buffer zero.
pub open spec fn view_json(v: BufferView) -> Seq<u8> {
    "{\"buffer\":0,\"byteLength\":".spec_bytes() + dec_u64(v.byte_length as nat)
        + ",\"byteOffset\":".spec_bytes() + dec_u64(v.byte_offset as nat)
        + ",\"name\":\"".spec_bytes() + name_bytes(v.name) + "\",\"target\":".spec_bytes()
        + dec_u64(v.target as nat) + "}".spec_bytes()
}

impl BufferView {
    /// Appends this buffer view's JSON object.
    pub fn to_json(&self, out: &mut Vec<u8>)
        ensures
            final(out)@ == old(out)@ + view_json(*self),
    {
        push_str_bytes(out, "{\"buffer\":0,\"byteLength\":");
        push_usize(out, self.byte_length);
        push_str_bytes(out, ",\"byteOffset\":");
        push_usize(out, self.byte_offset);
        push_str_bytes(out, ",\"name\":\"");
        push_name(out, self.name);
        push_str_bytes(out, "\",\"target\":");
        push_u64(out, self.target as u64);
        push_str_bytes(out, "}");
        proof {
            assert(final(out)@ =~= old(out)@ + view_json(*self));
        }
    }
}

/// The JSON array of three fixed-point components.
pub open spec fn triple_json(v: Vec3) -> Seq<u8> {
    "[".spec_bytes() + dec_fixed(v.x as int) + ",".spec_bytes() + dec_fixed(v.y as int)
        + ",".spec_bytes() + dec_fixed(v.z as int) + "]".spec_bytes()
}

/// Appends a JSON array of three fixed-point components.
fn push_triple(out: &mut Vec<u8>, v: Vec3)
    requires
        i64::MIN < v.x,
        i64::MIN < v.y,
        i64::MIN < v.z,
    ensures
        final(out)@ == old(out)@ + triple_json(v),
{
    push_str_bytes(out, "[");
    push_fixed(out, v.x);
    push_str_bytes(out, ",");
    push_fixed(out, v.y);
    push_str_bytes(out, ",");
    push_fixed(out, v.z);
    push_str_bytes(out, "]");
    proof {
        assert(final(out)@ =~= old(out)@ + triple_json(v));
    }
}

/// The JSON object of one accessor. Keys are in lexicographic order; the
/// `max`/`min` bounds appear only when present (position accessors).
pub open spec fn accessor_bounds_json(a: Accessor) -> Seq<u8> {
    if a.min is Some && a.max is Some {
        ",\"max\":".spec_bytes() + triple_json(a.max->0) + ",\"min\":".spec_bytes() + triple_json(
            a.min->0,
        )
    } else {
        Seq::empty()
    }
}

pub open spec fn accessor_prefix_json(a: Accessor) -> Seq<u8> {
    "{\"bufferView\":".spec_bytes() + dec_u64(a.buffer_view as nat)
        + ",\"componentType\":".spec_bytes() + dec_u64(a.component_type as nat)
        + ",\"count\":".spec_bytes() + dec_u64(a.count as nat)
}

pub open spec fn accessor_suffix_json(a: Accessor) -> Seq<u8> {
    ",\"name\":\"".spec_bytes() + name_bytes(a.name) + "\",\"type\":\"".spec_bytes()
        + kind_bytes(a.accessor_kind) + "\"}".spec_bytes()
}

pub open spec fn accessor_json(a: Accessor) -> Seq<u8> {
    accessor_prefix_json(a) + accessor_bounds_json(a) + accessor_suffix_json(a)
}

/// An accessor's optional bounds can be negated without overflow.
pub open spec fn accessor_bounded(a: Accessor) -> bool {
    &&& (a.min matches Some(v) ==> i64::MIN < v.x && i64::MIN < v.y && i64::MIN < v.z)
    &&& (a.max matches Some(v) ==> i64::MIN < v.x && i64::MIN < v.y && i64::MIN < v.z)
}

/// Appends an accessor's optional `max`/`min` bounds.
fn push_accessor_bounds(out: &mut Vec<u8>, a: &Accessor)
    requires
        accessor_bounded(*a),
    ensures
        final(out)@ == old(out)@ + accessor_bounds_json(*a),
{
    match (a.min, a.max) {
        (Some(lo), Some(hi)) => {
            push_str_bytes(out, ",\"max\":");
            push_triple(out, hi);
            push_str_bytes(out, ",\"min\":");
            push_triple(out, lo);
            proof {
                assert(final(out)@ =~= old(out)@ + accessor_bounds_json(*a));
            }
        },
        _ => {
            proof {
                assert(final(out)@ =~= old(out)@ + accessor_bounds_json(*a));
            }
        },
    }
}

impl Accessor {
    /// Appends this accessor's JSON object.
    pub fn to_json(&self, out: &mut Vec<u8>)
        requires
            accessor_bounded(*self),
        ensures
            final(out)@ == old(out)@ + accessor_json(*self),
    {
        push_accessor_prefix(out, self);
        push_accessor_bounds(out, self);
        push_accessor_suffix(out, self);
        proof {
            assert(final(out)@ =~= old(out)@ + accessor_json(*self));
        }
    }
}

/// Appends the leading fields of an accessor's JSON object.
fn push_accessor_prefix(out: &mut Vec<u8>, a: &Accessor)
    ensures
        final(out)@ == old(out)@ + accessor_prefix_json(*a),
{
    push_str_bytes(out, "{\"bufferView\":");
    push_usize(out, a.buffer_view);
    push_str_bytes(out, ",\"componentType\":");
    push_u64(out, a.component_type as u64);
    push_str_bytes(out, ",\"count\":");
    push_usize(out, a.count);
    proof {
        assert(final(out)@ =~= old(out)@ + accessor_prefix_json(*a));
    }
}

/// Appends the trailing fields of an accessor's JSON object.
fn push_accessor_suffix(out: &mut Vec<u8>, a: &Accessor)
    ensures
        final(out)@ == old(out)@ + accessor_suffix_json(*a),
{
    push_str_bytes(out, ",\"name\":\"");
    push_name(out, a.name);
    push_str_bytes(out, "\",\"type\":\"");
    push_kind(out, a.accessor_kind);
    push_str_bytes(out, "\"}");
    proof {
        assert(final(out)@ =~= old(out)@ + accessor_suffix_json(*a));
    }
}

/// The JSON object of one primitive: its two attribute accessors (keys in
/// lexicographic order), its index accessor and its material.
pub open spec fn primitive_json(p: Primitive) -> Seq<u8> {
    "{\"attributes\":{\"NORMAL\":".spec_bytes() + dec_u64(p.normal as nat)
        + ",\"POSITION\":".spec_bytes() + dec_u64(p.position as nat)
        + "},\"indices\":".spec_bytes() + dec_u64(p.indices as nat)
        + ",\"material\":".spec_bytes() + dec_u64(p.material as nat) + "}".spec_bytes()
}

impl Primitive {
    /// Appends this primitive's JSON object.
    pub fn to_json(&self, out: &mut Vec<u8>)
        ensures
            final(out)@ == old(out)@ + primitive_json(*self),
    {
        push_str_bytes(out, "{\"attributes\":{\"NORMAL\":");
        push_usize(out, self.normal);
        push_str_bytes(out, ",\"POSITION\":");
        push_usize(out, self.position);
        push_str_bytes(out, "},\"indices\":");
        push_usize(out, self.indices);
        push_str_bytes(out, ",\"material\":");
        push_usize(out, self.material);
        push_str_bytes(out, "}");
        proof {
            assert(final(out)@ =~= old(out)@ + primitive_json(*self));
        }
    }
}

/// The JSON object of the instancing extension: its `TRANSLATION`
/// attribute points at the per-instance offset accessor.
pub open spec fn instances_json(i: Instances) -> Seq<u8> {
    "{\"attributes\":{\"TRANSLATION\":".spec_bytes() + dec_u64(i.translation as nat)
        + "}}".spec_bytes()
}

impl Instances {
    /// Appends this extension object's JSON.
    pub fn to_json(&self, out: &mut Vec<u8>)
        ensures
            final(out)@ == old(out)@ + instances_json(*self),
    {
        push_str_bytes(out, "{\"attributes\":{\"TRANSLATION\":");
        push_usize(out, self.translation);
        push_str_bytes(out, "}}");
        proof {
            assert(final(out)@ =~= old(out)@ + instances_json(*self));
        }
    }
}

/// A comma-separated JSON list of materials.
pub open spec fn materials_json(s: Seq<Material>) -> Seq<u8>
    decreases s.len(),
{
    if s.len() == 0 {
        Seq::empty()
    } else if s.len() == 1 {
        material_json(s[0])
    } else {
        materials_json(s.drop_last()) + ",".spec_bytes() + material_json(s.last())
    }
}

/// A comma-separated JSON list of buffer views.
pub open spec fn views_json(s: Seq<BufferView>) -> Seq<u8>
    decreases s.len(),
{
    if s.len() == 0 {
        Seq::empty()
    } else if s.len() == 1 {
        view_json(s[0])
    } else {
        views_json(s.drop_last()) + ",".spec_bytes() + view_json(s.last())
    }
}

/// A comma-separated JSON list of accessors.
pub open spec fn accessors_json(s: Seq<Accessor>) -> Seq<u8>
    decreases s.len(),
{
    if s.len() == 0 {
        Seq::empty()
    } else if s.len() == 1 {
        accessor_json(s[0])
    } else {
        accessors_json(s.drop_last()) + ",".spec_bytes() + accessor_json(s.last())
    }
}

/// A comma-separated JSON list of primitives.
pub open spec fn primitives_json(s: Seq<Primitive>) -> Seq<u8>
    decreases s.len(),
{
    if s.len() == 0 {
        Seq::empty()
    } else if s.len() == 1 {
        primitive_json(s[0])
    } else {
        primitives_json(s.drop_last()) + ",".spec_bytes() + primitive_json(s.last())
    }
}

/// One step of emitting a comma-separated buffer view list.
proof fn lemma_views_json_snoc(
    s: Seq<BufferView>,
    base: Seq<u8>,
    pre_out: Seq<u8>,
    post_out: Seq<u8>,
    i: int,
)
    requires
        0 <= i < s.len(),
        pre_out == base + views_json(s.take(i)),
        post_out == if i == 0 {
            pre_out + view_json(s[i])
        } else {
            pre_out + ",".spec_bytes() + view_json(s[i])
        },
    ensures
        post_out == base + views_json(s.take(i + 1)),
{
    assert(s.take(i + 1).drop_last() =~= s.take(i));
    assert(s.take(i + 1).last() == s[i]);
    let prefix = views_json(s.take(i));
    let item = view_json(s[i]);
    if i == 0 {
        assert(base + prefix =~= base);
    } else {
        assert(views_json(s.take(i + 1)) == prefix + ",".spec_bytes() + item);
        vstd::seq_lib::lemma_concat_associative(base, prefix, ",".spec_bytes());
        vstd::seq_lib::lemma_concat_associative(base, prefix + ",".spec_bytes(), item);
        vstd::seq_lib::lemma_concat_associative(base, prefix, ",".spec_bytes() + item);
    }
}

/// Any multiple of four is divisible by four.
proof fn lemma_mod_of_mul_4(n: int)
    requires
        0 <= n,
    ensures
        (4 * n) % 4 == 0,
{
    vstd::arithmetic::div_mod::lemma_mod_multiples_basic(n, 4);
    assert(n * 4 == 4 * n);
}

/// Componentwise bounds of an in-bounds vector sequence stay in bounds.
proof fn lemma_minmax_in_bounds(s: Seq<Vec3>)
    requires
        s.len() >= 1,
        forall|i: int| 0 <= i < s.len() ==> (#[trigger] s[i]).in_bounds(),
    ensures
        min_of(s).in_bounds(),
        max_of(s).in_bounds(),
    decreases s.len(),
{
    if s.len() > 1 {
        lemma_minmax_in_bounds(s.drop_last());
        assert(s.last().in_bounds());
    } else {
        assert(s[0].in_bounds());
    }
}

/// The complete asset document under construction.
pub struct Gltf {
    pub materials: Vec<Material>,
    pub instances: Instances,
    pub primitives: Vec<Primitive>,
    pub accessors: Vec<Accessor>,
    pub buffer_views: Vec<BufferView>,
    pub buffer_data: Vec<u8>,
}

impl Gltf {
    /// Buffer views are packed contiguously from offset zero, every view
    /// is four-byte aligned, and the buffer holds exactly the bytes of all
    /// the views.
    pub open spec fn wf(self) -> bool {
        &&& forall|i: int|
            0 <= i < self.buffer_views@.len() ==> (#[trigger] self.buffer_views@[i]).byte_offset
                as int == Gltf::views_length(self.buffer_views@.take(i))
        &&& forall|i: int|
            0 <= i < self.buffer_views@.len() ==> (#[trigger] self.buffer_views@[i]).byte_length
                % 4 == 0
        &&& self.buffer_data@.len() == Gltf::views_length(
            self.buffer_views@.take(self.buffer_views@.len() as int),
        )
        &&& forall|i: int|
            0 <= i < self.accessors@.len() ==> accessor_bounded(#[trigger] self.accessors@[i])
        &&& forall|i: int|
            0 <= i < self.materials@.len() ==> material_bounded(#[trigger] self.materials@[i])
    }

    /// Total byte length of a sequence of buffer views.
    pub open spec fn views_length(views: Seq<BufferView>) -> int
        decreases views.len(),
    {
        if views.len() == 0 {
            0
        } else {
            Gltf::views_length(views.drop_last()) + views.last().byte_length
        }
    }

    pub fn new() -> (r: Gltf)
        ensures
            r.wf(),
            r.materials@.len() == 0,
            r.primitives@.len() == 0,
            r.accessors@.len() == 0,
            r.buffer_views@.len() == 0,
            r.buffer_data@.len() == 0,
            r.instances == (Instances { translation: 0 }),
    {
        let r = Gltf {
            materials: Vec::new(),
            instances: Instances { translation: 0 },
            primitives: Vec::new(),
            accessors: Vec::new(),
            buffer_views: Vec::new(),
            buffer_data: Vec::new(),
        };
        proof {
            assert(r.buffer_views@.take(0) =~= Seq::<BufferView>::empty());
        }
        r
    }

    /// Replaces the material list.
    pub fn add_materials(&mut self, materials: Vec<Material>)
        requires
            old(self).wf(),
            forall|i: int|
                0 <= i < materials@.len() ==> material_bounded(#[trigger] materials@[i]),
        ensures
            final(self).wf(),
            final(self).materials == materials,
            final(self).instances == old(self).instances,
            final(self).primitives == old(self).primitives,
            final(self).accessors == old(self).accessors,
            final(self).buffer_views == old(self).buffer_views,
            final(self).buffer_data == old(self).buffer_data,
    {
        self.materials = materials;
    }

    /// Appends a buffer view holding `data`, packed directly after the
    /// previous view, and returns its index.
    fn add_buffer_view(&mut self, name: AccessorName, data: Vec<u8>, is_indices: bool) -> (r:
        Result<usize, GltfError>)
        requires
            old(self).wf(),
            data@.len() % 4 == 0,
        ensures
            match r {
                Ok(index) => {
                    &&& final(self).wf()
                    &&& index == old(self).buffer_views@.len()
                    &&& final(self).buffer_views@ == old(self).buffer_views@.push(
                        (BufferView {
                            name,
                            byte_offset: old(self).buffer_data@.len() as usize,
                            byte_length: data@.len() as usize,
                            target: if is_indices {
                                GLTF_TARGET_ELEMENT_ARRAY_BUFFER
                            } else {
                                GLTF_TARGET_ARRAY_BUFFER
                            },
                        }),
                    )
                    &&& final(self).buffer_data@ == old(self).buffer_data@ + data@
                    &&& final(self).materials == old(self).materials
                    &&& final(self).instances == old(self).instances
                    &&& final(self).primitives == old(self).primitives
                    &&& final(self).accessors == old(self).accessors
                },
                Err(e) => {
                    &&& e == GltfError::TooLarge
                    &&& *final(self) == *old(self)
                    &&& old(self).buffer_data@.len() + data@.len() > usize::MAX
                },
            },
    {
        let index = self.buffer_views.len();
        if data.len() > usize::MAX - self.buffer_data.len() {
            return Err(GltfError::TooLarge);
        }
        let byte_offset = self.buffer_data.len();

        let target = if is_indices {
            GLTF_TARGET_ELEMENT_ARRAY_BUFFER
        } else {
            GLTF_TARGET_ARRAY_BUFFER
        };

        let buffer_view = BufferView {
            name,
            byte_offset,
            byte_length: data.len(),
            target,
        };

        let ghost pre = *self;
        self.buffer_views.push(buffer_view);
        let mut data = data;
        self.buffer_data.append(&mut data);

        proof {
            let views = self.buffer_views@;
            assert(views.take(views.len() as int) =~= views);
            assert(views.drop_last() =~= pre.buffer_views@);
            assert(pre.buffer_views@.take(pre.buffer_views@.len() as int) =~= pre.buffer_views@);
            assert(Gltf::views_length(views) == Gltf::views_length(pre.buffer_views@)
                + buffer_view.byte_length);
            assert forall|i: int|
                0 <= i < views.len() implies (#[trigger] views[i]).byte_offset as int
                == Gltf::views_length(views.take(i)) by {
                assert(views.take(i) =~= pre.buffer_views@.take(i));
                if i < pre.buffer_views@.len() {
                    assert(views[i] == pre.buffer_views@[i]);
                } else {
                    assert(views.take(i) =~= pre.buffer_views@);
                }
            }
        }
        Ok(index)
    }

    /// Appends an accessor and returns its index.
    fn add_accessor(&mut self, accessor: Accessor) -> (r: usize)
        requires
            old(self).wf(),
            accessor_bounded(accessor),
        ensures
            final(self).wf(),
            r == old(self).accessors@.len(),
            final(self).accessors@ == old(self).accessors@.push(accessor),
            final(self).materials == old(self).materials,
            final(self).instances == old(self).instances,
            final(self).primitives == old(self).primitives,
            final(self).buffer_views == old(self).buffer_views,
            final(self).buffer_data == old(self).buffer_data,
    {
        let index = self.accessors.len();
        self.accessors.push(accessor);
        index
    }

    /// Componentwise bounds of a nonempty vector list. By deliberate
    /// design decision, each axis accumulates its own minimum and maximum
    /// independently: no axis's running bound ever feeds another axis's
    /// comparison.
    fn get_min_max(vectors: &Vec<Vec3>) -> (r: (Vec3, Vec3))
        requires
            vectors@.len() >= 1,
        ensures
            r.0 == min_of(vectors@),
            r.1 == max_of(vectors@),
    {
        let first = vectors[0];
        let mut lo = first;
        let mut hi = first;
        let count = vectors.len();
        for i in 1..count
            invariant
                1 <= i <= count,
                count == vectors@.len(),
                lo == min_of(vectors@.take(i as int)),
                hi == max_of(vectors@.take(i as int)),
        {
            let v = vectors[i];
            lo = Vec3 {
                x: if v.x < lo.x {
                    v.x
                } else {
                    lo.x
                },
                y: if v.y < lo.y {
                    v.y
                } else {
                    lo.y
                },
                z: if v.z < lo.z {
                    v.z
                } else {
                    lo.z
                },
            };
            hi = Vec3 {
                x: if v.x > hi.x {
                    v.x
                } else {
                    hi.x
                },
                y: if v.y > hi.y {
                    v.y
                } else {
                    hi.y
                },
                z: if v.z > hi.z {
                    v.z
                } else {
                    hi.z
                },
            };
            proof {
                assert(vectors@.take(i + 1).drop_last() =~= vectors@.take(i as int));
                assert(vectors@.take(i + 1).last() == vectors@[i as int]);
            }
        }
        proof {
            assert(vectors@.take(count as int) =~= vectors@);
        }
        (lo, hi)
    }

    /// Packs vectors as consecutive little-endian 32-bit floats, three per
    /// vector.
    fn pack_vec3s(vectors: &Vec<Vec3>) -> (r: Vec<u8>)
        requires
            forall|i: int|
                0 <= i < vectors@.len() ==> (#[trigger] vectors@[i]).in_bounds(),
        ensures
            r@ == packed_vec3s(vectors@),
            r@.len() == 12 * vectors@.len(),
    {
        let mut result: Vec<u8> = Vec::new();
        let count = vectors.len();
        for i in 0..count
            invariant
                count == vectors@.len(),
                forall|q: int| 0 <= q < count ==> (#[trigger] vectors@[q]).in_bounds(),
                result@ == packed_vec3s(vectors@.take(i as int)),
        {
            let v = vectors[i];
            push_le4(&mut result, f32_bits(v.x));
            push_le4(&mut result, f32_bits(v.y));
            push_le4(&mut result, f32_bits(v.z));
            proof {
                assert(vectors@.take(i + 1).drop_last() =~= vectors@.take(i as int));
                assert(vectors@.take(i + 1).last() == vectors@[i as int]);
            }
        }
        proof {
            assert(vectors@.take(count as int) =~= vectors@);
            lemma_packed_vec3s_len(vectors@);
        }
        result
    }

    /// Appends a position accessor: its packed data, its buffer view and
    /// its accessor record with componentwise bounds.
    fn add_position_accessor(&mut self, positions: &Vec<Vec3>) -> (r: Result<usize, GltfError>)
        requires
            old(self).wf(),
            positions@.len() >= 1,
            forall|i: int| 0 <= i < positions@.len() ==> (#[trigger] positions@[i]).in_bounds(),
        ensures
            match r {
                Ok(index) => {
                    &&& final(self).wf()
                    &&& index == old(self).accessors@.len()
                    &&& final(self).accessors@ == old(self).accessors@.push(
                        (Accessor {
                            name: AccessorName::Position,
                            buffer_view: old(self).buffer_views@.len() as usize,
                            accessor_kind: AccessorKind::Vector3,
                            component_type: GLTF_FLOAT,
                            count: positions@.len() as usize,
                            min: Some(min_of(positions@)),
                            max: Some(max_of(positions@)),
                        }),
                    )
                    &&& final(self).buffer_views@ == old(self).buffer_views@.push(
                        (BufferView {
                            name: AccessorName::Position,
                            byte_offset: old(self).buffer_data@.len() as usize,
                            byte_length: (12 * positions@.len()) as usize,
                            target: GLTF_TARGET_ARRAY_BUFFER,
                        }),
                    )
                    &&& final(self).buffer_data@ == old(self).buffer_data@ + packed_vec3s(
                        positions@,
                    )
                    &&& final(self).materials == old(self).materials
                    &&& final(self).instances == old(self).instances
                    &&& final(self).primitives == old(self).primitives
                },
                Err(e) => {
                    &&& e == GltfError::TooLarge
                    &&& *final(self) == *old(self)
                    &&& old(self).buffer_data@.len() + 12 * positions@.len() > usize::MAX
                },
            },
    {
        let count = positions.len();
        proof {
            lemma_minmax_in_bounds(positions@);
        }
        let (lo, hi) = Self::get_min_max(positions);
        let buffer_view_data = Self::pack_vec3s(positions);
        proof {
            lemma_mod_of_mul_4(3 * positions@.len() as int);
        }
        let buffer_view = match self.add_buffer_view(
            AccessorName::Position,
            buffer_view_data,
            false,
        ) {
            Ok(v) => v,
            Err(e) => {
                return Err(e);
            },
        };

        let index = self.add_accessor(
            Accessor {
                name: AccessorName::Position,
                buffer_view,
                accessor_kind: AccessorKind::Vector3,
                component_type: GLTF_FLOAT,
                count,
                min: Some(lo),
                max: Some(hi),
            },
        );
        Ok(index)
    }

    /// Appends a normal accessor: packed data, buffer view and accessor
    /// record, without bounds.
    fn add_normal_accessor(&mut self, normals: &Vec<Vec3>) -> (r: Result<usize, GltfError>)
        requires
            old(self).wf(),
            forall|i: int| 0 <= i < normals@.len() ==> (#[trigger] normals@[i]).in_bounds(),
        ensures
            match r {
                Ok(index) => {
                    &&& final(self).wf()
                    &&& index == old(self).accessors@.len()
                    &&& final(self).accessors@ == old(self).accessors@.push(
                        (Accessor {
                            name: AccessorName::Normals,
                            buffer_view: old(self).buffer_views@.len() as usize,
                            accessor_kind: AccessorKind::Vector3,
                            component_type: GLTF_FLOAT,
                            count: normals@.len() as usize,
                            min: None,
                            max: None,
                        }),
                    )
                    &&& final(self).buffer_views@ == old(self).buffer_views@.push(
                        (BufferView {
                            name: AccessorName::Normals,
                            byte_offset: old(self).buffer_data@.len() as usize,
                            byte_length: (12 * normals@.len()) as usize,
                            target: GLTF_TARGET_ARRAY_BUFFER,
                        }),
                    )
                    &&& final(self).buffer_data@ == old(self).buffer_data@ + packed_vec3s(
                        normals@,
                    )
                    &&& final(self).materials == old(self).materials
                    &&& final(self).instances == old(self).instances
                    &&& final(self).primitives == old(self).primitives
                },
                Err(e) => {
                    &&& e == GltfError::TooLarge
                    &&& *final(self) == *old(self)
                    &&& old(self).buffer_data@.len() + 12 * normals@.len() > usize::MAX
                },
            },
    {
        let count = normals.len();
        let buffer_view_data = Self::pack_vec3s(normals);
        proof {
            lemma_mod_of_mul_4(3 * normals@.len() as int);
        }
        let buffer_view = match self.add_buffer_view(
            AccessorName::Normals,
            buffer_view_data,
            false,
        ) {
            Ok(v) => v,
            Err(e) => {
                return Err(e);
            },
        };

        let index = self.add_accessor(
            Accessor {
                name: AccessorName::Normals,
                buffer_view,
                accessor_kind: AccessorKind::Vector3,
                component_type: GLTF_FLOAT,
                count,
                min: None,
                max: None,
            },
        );
        Ok(index)
    }

    /// Appends an index accessor: packed data, buffer view and accessor
    /// record.
    fn add_indices_accessor(&mut self, indices: &Vec<u32>) -> (r: Result<usize, GltfError>)
        requires
            old(self).wf(),
        ensures
            match r {
                Ok(index) => {
                    &&& final(self).wf()
                    &&& index == old(self).accessors@.len()
                    &&& final(self).accessors@ == old(self).accessors@.push(
                        (Accessor {
                            name: AccessorName::Indices,
                            buffer_view: old(self).buffer_views@.len() as usize,
                            accessor_kind: AccessorKind::Scalar,
                            component_type: GLTF_UNSIGNED_INT,
                            count: indices@.len() as usize,
                            min: None,
                            max: None,
                        }),
                    )
                    &&& final(self).buffer_views@ == old(self).buffer_views@.push(
                        (BufferView {
                            name: AccessorName::Indices,
                            byte_offset: old(self).buffer_data@.len() as usize,
                            byte_length: (4 * indices@.len()) as usize,
                            target: GLTF_TARGET_ELEMENT_ARRAY_BUFFER,
                        }),
                    )
                    &&& final(self).buffer_data@ == old(self).buffer_data@ + packed_indices(
                        indices@,
                    )
                    &&& final(self).materials == old(self).materials
                    &&& final(self).instances == old(self).instances
                    &&& final(self).primitives == old(self).primitives
                },
                Err(e) => {
                    &&& e == GltfError::TooLarge
                    &&& *final(self) == *old(self)
                    &&& old(self).buffer_data@.len() + 4 * indices@.len() > usize::MAX
                },
            },
    {
        let count = indices.len();
        let buffer_view_data = Self::pack_indices(indices);
        proof {
            lemma_mod_of_mul_4(indices@.len() as int);
        }
        let buffer_view = match self.add_buffer_view(
            AccessorName::Indices,
            buffer_view_data,
            true,
        ) {
            Ok(v) => v,
            Err(e) => {
                return Err(e);
            },
        };

        let index = self.add_accessor(
            Accessor {
                name: AccessorName::Indices,
                buffer_view,
                accessor_kind: AccessorKind::Scalar,
                component_type: GLTF_UNSIGNED_INT,
                count,
                min: None,
                max: None,
            },
        );
        Ok(index)
    }

    /// Records the per-instance translations and points the instancing
    /// extension at their accessor.
    #[verifier::rlimit(60)]
    pub fn add_instances(&mut self, translations: &Vec<Vec3>) -> (r: Result<(), GltfError>)
        requires
            old(self).wf(),
            forall|i: int|
                0 <= i < translations@.len() ==> (#[trigger] translations@[i]).in_bounds(),
        ensures
            match r {
                Ok(()) => {
                    &&& final(self).wf()
                    &&& final(self).instances == (Instances {
                        translation: old(self).accessors@.len() as usize,
                    })
                    &&& final(self).accessors@ == old(self).accessors@.push(
                        (Accessor {
                            name: AccessorName::InstanceTranslation,
                            buffer_view: old(self).buffer_views@.len() as usize,
                            accessor_kind: AccessorKind::Vector3,
                            component_type: GLTF_FLOAT,
                            count: translations@.len() as usize,
                            min: None,
                            max: None,
                        }),
                    )
                    &&& final(self).buffer_data@ == old(self).buffer_data@ + packed_vec3s(
                        translations@,
                    )
                    &&& final(self).materials == old(self).materials
                    &&& final(self).primitives == old(self).primitives
                },
                Err(e) => {
                    &&& e == GltfError::TooLarge
                    &&& *final(self) == *old(self)
                    &&& old(self).buffer_data@.len() + 12 * translations@.len() > usize::MAX
                },
            },
    {
        let count = translations.len();
        let buffer_view_data = Self::pack_vec3s(translations);
        proof {
            lemma_mod_of_mul_4(3 * translations@.len() as int);
        }
        let buffer_view = match self.add_buffer_view(
            AccessorName::InstanceTranslation,
            buffer_view_data,
            false,
        ) {
            Ok(v) => v,
            Err(e) => {
                return Err(e);
            },
        };

        let accessor = self.add_accessor(
            Accessor {
                name: AccessorName::InstanceTranslation,
                buffer_view,
                accessor_kind: AccessorKind::Vector3,
                component_type: GLTF_FLOAT,
                count,
                min: None,
                max: None,
            },
        );

        self.instances = Instances { translation: accessor };
        Ok(())
    }


    /// The buffer and index space can hold one more primitive built from
    /// `mesh`: its corner count is addressable by 32-bit indices and its
    /// packed attribute and index bytes fit behind the current buffer.
    pub open spec fn primitive_fits(self, mesh: Mesh) -> bool {
        let nf = mesh.faces@.len() as int;
        &&& mesh.corners_upto(nf) <= u32::MAX
        &&& self.buffer_data@.len() + 24 * mesh.corners_upto(nf) + 4 * mesh.tri_indices_upto(nf)
            <= usize::MAX
    }

    /// Triangulates `mesh` and appends one primitive: a position accessor
    /// with bounds, a normal accessor and an index accessor, all packed
    /// into the buffer in that order. Fails, leaving the document
    /// untouched, exactly when the primitive does not fit.
    #[verifier::rlimit(100)]
    pub fn add_primitive(&mut self, mesh: &Mesh, material_id: usize) -> (r: Result<
        (),
        GltfError,
    >)
        requires
            old(self).wf(),
            mesh.wf(),
            mesh.faces@.len() >= 1,
            forall|f: int|
                0 <= f < mesh.faces@.len() ==> (#[trigger] mesh.faces@[f]).normal is Some,
        ensures
            Gltf::primitive_fits(*old(self), *mesh) ==> r is Ok,
            match r {
                Ok(()) => {
                    let nf = mesh.faces@.len() as int;
                    let a0 = old(self).accessors@.len() as int;
                    let v0 = old(self).buffer_views@.len() as int;
                    let b0 = old(self).buffer_data@.len() as int;
                    let corners = mesh.corners_upto(nf);
                    let tri = mesh.tri_indices_upto(nf);
                    &&& final(self).wf()
                    &&& final(self).primitives@ == old(self).primitives@.push(
                        (Primitive {
                            material: material_id,
                            indices: (a0 + 2) as usize,
                            position: a0 as usize,
                            normal: (a0 + 1) as usize,
                        }),
                    )
                    &&& final(self).accessors@.len() == a0 + 3
                    &&& forall|i: int|
                        0 <= i < a0 ==> #[trigger] final(self).accessors@[i] == old(
                            self,
                        ).accessors@[i]
                    &&& final(self).accessors@[a0] == (Accessor {
                        name: AccessorName::Position,
                        buffer_view: v0 as usize,
                        accessor_kind: AccessorKind::Vector3,
                        component_type: GLTF_FLOAT,
                        count: corners as usize,
                        min: Some(min_of(mesh.tri_positions_upto(nf))),
                        max: Some(max_of(mesh.tri_positions_upto(nf))),
                    })
                    &&& final(self).accessors@[a0 + 1] == (Accessor {
                        name: AccessorName::Normals,
                        buffer_view: (v0 + 1) as usize,
                        accessor_kind: AccessorKind::Vector3,
                        component_type: GLTF_FLOAT,
                        count: corners as usize,
                        min: None,
                        max: None,
                    })
                    &&& final(self).accessors@[a0 + 2] == (Accessor {
                        name: AccessorName::Indices,
                        buffer_view: (v0 + 2) as usize,
                        accessor_kind: AccessorKind::Scalar,
                        component_type: GLTF_UNSIGNED_INT,
                        count: tri as usize,
                        min: None,
                        max: None,
                    })
                    &&& final(self).buffer_views@.len() == v0 + 3
                    &&& forall|i: int|
                        0 <= i < v0 ==> #[trigger] final(self).buffer_views@[i] == old(
                            self,
                        ).buffer_views@[i]
                    &&& final(self).buffer_views@[v0] == (BufferView {
                        name: AccessorName::Position,
                        byte_offset: b0 as usize,
                        byte_length: (12 * corners) as usize,
                        target: GLTF_TARGET_ARRAY_BUFFER,
                    })
                    &&& final(self).buffer_views@[v0 + 1] == (BufferView {
                        name: AccessorName::Normals,
                        byte_offset: (b0 + 12 * corners) as usize,
                        byte_length: (12 * corners) as usize,
                        target: GLTF_TARGET_ARRAY_BUFFER,
                    })
                    &&& final(self).buffer_views@[v0 + 2] == (BufferView {
                        name: AccessorName::Indices,
                        byte_offset: (b0 + 24 * corners) as usize,
                        byte_length: (4 * tri) as usize,
                        target: GLTF_TARGET_ELEMENT_ARRAY_BUFFER,
                    })
                    &&& final(self).buffer_data@ == old(self).buffer_data@ + packed_vec3s(
                        mesh.tri_positions_upto(nf),
                    ) + packed_vec3s(mesh.tri_normals_upto(nf)) + packed_indices(
                        mesh.tri_indices_seq_upto(nf),
                    )
                    &&& final(self).materials == old(self).materials
                    &&& final(self).instances == old(self).instances
                },
                Err(e) => {
                    &&& e == GltfError::TooLarge
                    &&& *final(self) == *old(self)
                    &&& !Gltf::primitive_fits(*old(self), *mesh)
                },
            },
    {
        let ghost nf = mesh.faces@.len() as int;
        let corners = match mesh.corner_count() {
            Some(c) => c,
            None => {
                return Err(GltfError::TooLarge);
            },
        };
        let (positions, normals, indices) = mesh.triangulate();
        proof {
            mesh.lemma_tri_data_bounds(nf);
            mesh.lemma_counts_nonneg(nf);
            assert forall|i: int|
                0 <= i < positions@.len() implies (#[trigger] positions@[i]).in_bounds() by {
                assert(positions@[i] == mesh.tri_positions_upto(nf)[i]);
            }
            assert forall|i: int|
                0 <= i < normals@.len() implies (#[trigger] normals@[i]).in_bounds() by {
                assert(normals@[i] == mesh.tri_normals_upto(nf)[i]);
                assert(mesh.tri_normals_upto(nf)[i].unit_bounds());
            }
            assert(mesh.corners_upto(nf) >= mesh.face_degree(0)) by {
                assert(mesh.corners_upto(1) == mesh.corners_upto(0) + mesh.face_degree(0));
                mesh.lemma_counts_monotone(1, nf);
            }
            assert(mesh.wf_face(0));
        }

        // All three packed blocks must fit behind the buffer; a primitive
        // that does not fit must leave the document untouched.
        let b0 = self.buffer_data.len();
        let needed: u128 = 24 * (corners as u128) + 4 * (indices.len() as u128);
        if (b0 as u128) + needed > usize::MAX as u128 {
            return Err(GltfError::TooLarge);
        }

        let position_accessor = match self.add_position_accessor(&positions) {
            Ok(a) => a,
            Err(_) => {
                proof {
                    assert(false);
                }
                return Err(GltfError::TooLarge);
            },
        };
        let normal_accessor = match self.add_normal_accessor(&normals) {
            Ok(a) => a,
            Err(_) => {
                proof {
                    lemma_packed_vec3s_len(mesh.tri_positions_upto(nf));
                    assert(false);
                }
                return Err(GltfError::TooLarge);
            },
        };
        let indices_accessor = match self.add_indices_accessor(&indices) {
            Ok(a) => a,
            Err(_) => {
                proof {
                    lemma_packed_vec3s_len(mesh.tri_positions_upto(nf));
                    lemma_packed_vec3s_len(mesh.tri_normals_upto(nf));
                    assert(false);
                }
                return Err(GltfError::TooLarge);
            },
        };

        let primitive = Primitive {
            material: material_id,
            indices: indices_accessor,
            position: position_accessor,
            normal: normal_accessor,
        };
        self.primitives.push(primitive);
        proof {
            lemma_packed_vec3s_len(mesh.tri_positions_upto(nf));
            lemma_packed_vec3s_len(mesh.tri_normals_upto(nf));
        }
        Ok(())
    }

    /// Packs indices as consecutive little-endian 32-bit unsigned
    /// integers.
    fn pack_indices(indices: &Vec<u32>) -> (r: Vec<u8>)
        ensures
            r@ == packed_indices(indices@),
            r@.len() == 4 * indices@.len(),
    {
        let mut result: Vec<u8> = Vec::new();
        let count = indices.len();
        for i in 0..count
            invariant
                count == indices@.len(),
                result@ == packed_indices(indices@.take(i as int)),
        {
            push_le4(&mut result, indices[i]);
            proof {
                assert(indices@.take(i + 1).drop_last() =~= indices@.take(i as int));
                assert(indices@.take(i + 1).last() == indices@[i as int]);
            }
        }
        proof {
            assert(indices@.take(count as int) =~= indices@);
            lemma_packed_indices_len(indices@);
        }
        result
    }

    /// The document's leading accessors array.
    pub open spec fn part_accessors(g: Gltf) -> Seq<u8> {
        "{\"accessors\":[".spec_bytes() + accessors_json(g.accessors@) + "]".spec_bytes()
    }

    /// The asset metadata block: copyright (from the given year), the
    /// generator string and the format version.
    pub open spec fn part_asset(year: u64) -> Seq<u8> {
        ",\"asset\":{\"copyright\":\"(c) ".spec_bytes() + dec_u64(year as nat)
            + "\",\"generator\":\"tower tiling generator\",\"version\":\"2.0\"}".spec_bytes()
    }

    /// The buffer views array.
    pub open spec fn part_views(g: Gltf) -> Seq<u8> {
        ",\"bufferViews\":[".spec_bytes() + views_json(g.buffer_views@) + "]".spec_bytes()
    }

    /// The single embedded buffer's declared length, and the extension
    /// list.
    pub open spec fn part_buffers(g: Gltf) -> Seq<u8> {
        ",\"buffers\":[{\"byteLength\":".spec_bytes() + dec_u64(g.buffer_data@.len())
            + "}],\"extensionsUsed\":[\"EXT_mesh_gpu_instancing\"]".spec_bytes()
    }

    /// The materials array.
    pub open spec fn part_materials(g: Gltf) -> Seq<u8> {
        ",\"materials\":[".spec_bytes() + materials_json(g.materials@) + "]".spec_bytes()
    }

    /// The one mesh, with one primitive per tower.
    pub open spec fn part_meshes(g: Gltf) -> Seq<u8> {
        ",\"meshes\":[{\"primitives\":[".spec_bytes() + primitives_json(g.primitives@)
            + "]}]".spec_bytes()
    }

    /// The scene graph: one node carrying the instancing extension.
    pub open spec fn part_nodes(g: Gltf) -> Seq<u8> {
        ",\"nodes\":[{\"extensions\":{\"EXT_mesh_gpu_instancing\":".spec_bytes() + instances_json(
            g.instances,
        ) + "},\"mesh\":0,\"name\":\"Tower Tiling\"}],\"scene\":0,\"scenes\":[{\"nodes\":[0]}]}".spec_bytes()
    }

    /// The complete JSON document, keys in lexicographic order.
    #[verifier::opaque]
    pub open spec fn gltf_json(g: Gltf, year: u64) -> Seq<u8> {
        Gltf::part_accessors(g) + Gltf::part_asset(year) + Gltf::part_views(g)
            + Gltf::part_buffers(g) + Gltf::part_materials(g) + Gltf::part_meshes(g)
            + Gltf::part_nodes(g)
    }

    /// Appends the accessors array.
    #[verifier::rlimit(60)]
    fn push_part_accessors(&self, out: &mut Vec<u8>)
        requires
            self.wf(),
        ensures
            final(out)@ == old(out)@ + Gltf::part_accessors(*self),
    {
        push_str_bytes(out, "{\"accessors\":[");
        let ghost base = out@;
        let count = self.accessors.len();
        for i in 0..count
            invariant
                self.wf(),
                count == self.accessors@.len(),
                out@ == base + accessors_json(self.accessors@.take(i as int)),
        {
            if i > 0 {
                push_str_bytes(out, ",");
            }
            self.accessors[i].to_json(out);
            proof {
                assert(self.accessors@.take(i + 1).drop_last() =~= self.accessors@.take(i as int));
                assert(self.accessors@.take(i + 1).last() == self.accessors@[i as int]);
                assert(out@ =~= base + accessors_json(self.accessors@.take(i + 1)));
            }
        }
        push_str_bytes(out, "]");
        proof {
            assert(self.accessors@.take(count as int) =~= self.accessors@);
            assert(final(out)@ =~= old(out)@ + Gltf::part_accessors(*self));
        }
    }

    /// Appends the buffer views array.
    fn push_part_views(&self, out: &mut Vec<u8>)
        requires
            self.wf(),
        ensures
            final(out)@ == old(out)@ + Gltf::part_views(*self),
    {
        push_str_bytes(out, ",\"bufferViews\":[");
        let ghost base = out@;
        let count = self.buffer_views.len();
        for i in 0..count
            invariant
                count == self.buffer_views@.len(),
                out@ == base + views_json(self.buffer_views@.take(i as int)),
        {
            let ghost pre_out = out@;
            if i > 0 {
                push_str_bytes(out, ",");
            }
            self.buffer_views[i].to_json(out);
            proof {
                lemma_views_json_snoc(self.buffer_views@, base, pre_out, out@, i as int);
            }
        }
        push_str_bytes(out, "]");
        proof {
            assert(self.buffer_views@.take(count as int) =~= self.buffer_views@);
            assert(final(out)@ =~= old(out)@ + Gltf::part_views(*self));
        }
    }

    /// Appends the materials array.
    #[verifier::rlimit(60)]
    fn push_part_materials(&self, out: &mut Vec<u8>)
        requires
            self.wf(),
        ensures
            final(out)@ == old(out)@ + Gltf::part_materials(*self),
    {
        push_str_bytes(out, ",\"materials\":[");
        let ghost base = out@;
        let count = self.materials.len();
        for i in 0..count
            invariant
                self.wf(),
                count == self.materials@.len(),
                out@ == base + materials_json(self.materials@.take(i as int)),
        {
            if i > 0 {
                push_str_bytes(out, ",");
            }
            self.materials[i].to_json(out);
            proof {
                assert(self.materials@.take(i + 1).drop_last() =~= self.materials@.take(i as int));
                assert(self.materials@.take(i + 1).last() == self.materials@[i as int]);
                assert(out@ =~= base + materials_json(self.materials@.take(i + 1)));
            }
        }
        push_str_bytes(out, "]");
        proof {
            assert(self.materials@.take(count as int) =~= self.materials@);
            assert(final(out)@ =~= old(out)@ + Gltf::part_materials(*self));
        }
    }

    /// Appends the mesh and its primitives.
    #[verifier::rlimit(60)]
    fn push_part_meshes(&self, out: &mut Vec<u8>)
        ensures
            final(out)@ == old(out)@ + Gltf::part_meshes(*self),
    {
        push_str_bytes(out, ",\"meshes\":[{\"primitives\":[");
        let ghost base = out@;
        let count = self.primitives.len();
        for i in 0..count
            invariant
                count == self.primitives@.len(),
                out@ == base + primitives_json(self.primitives@.take(i as int)),
        {
            if i > 0 {
                push_str_bytes(out, ",");
            }
            self.primitives[i].to_json(out);
            proof {
                assert(self.primitives@.take(i + 1).drop_last() =~= self.primitives@.take(
                    i as int,
                ));
                assert(self.primitives@.take(i + 1).last() == self.primitives@[i as int]);
                assert(out@ =~= base + primitives_json(self.primitives@.take(i + 1)));
            }
        }
        push_str_bytes(out, "]}]");
        proof {
            assert(self.primitives@.take(count as int) =~= self.primitives@);
            assert(final(out)@ =~= old(out)@ + Gltf::part_meshes(*self));
        }
    }

    /// Emits the whole JSON document as UTF-8 bytes.
    pub fn to_json(&self, year: u64) -> (r: Vec<u8>)
        requires
            self.wf(),
        ensures
            r@ == Gltf::gltf_json(*self, year),
    {
        let mut out: Vec<u8> = Vec::new();
        self.push_part_accessors(&mut out);
        // Asset block.
        push_str_bytes(&mut out, ",\"asset\":{\"copyright\":\"(c) ");
        push_u64(&mut out, year);
        push_str_bytes(
            &mut out,
            "\",\"generator\":\"tower tiling generator\",\"version\":\"2.0\"}",
        );
        proof {
            assert(out@ =~= Gltf::part_accessors(*self) + Gltf::part_asset(year));
        }
        let ghost mid1 = out@;
        self.push_part_views(&mut out);
        // Buffers and extensions.
        push_str_bytes(&mut out, ",\"buffers\":[{\"byteLength\":");
        push_usize(&mut out, self.buffer_data.len());
        push_str_bytes(&mut out, "}],\"extensionsUsed\":[\"EXT_mesh_gpu_instancing\"]");
        proof {
            assert(out@ =~= mid1 + Gltf::part_views(*self) + Gltf::part_buffers(*self));
        }
        let ghost mid2 = out@;
        self.push_part_materials(&mut out);
        self.push_part_meshes(&mut out);
        // Scene graph.
        push_str_bytes(&mut out, ",\"nodes\":[{\"extensions\":{\"EXT_mesh_gpu_instancing\":");
        self.instances.to_json(&mut out);
        push_str_bytes(
            &mut out,
            "},\"mesh\":0,\"name\":\"Tower Tiling\"}],\"scene\":0,\"scenes\":[{\"nodes\":[0]}]}",
        );
        proof {
            assert(out@ =~= mid2 + Gltf::part_materials(*self) + Gltf::part_meshes(*self)
                + Gltf::part_nodes(*self));
            reveal(Gltf::gltf_json);
            assert(out@ =~= Gltf::gltf_json(*self, year));
        }
        out
    }

    /// How many padding bytes bring `length` up to a 4-byte boundary.
    pub fn get_padding_length(length: usize) -> (r: usize)
        ensures
            r == pad4(length as int),
            r < 4,
            (length + r) % 4 == 0,
    {
        let r = (4 - length % 4) % 4;
        proof {
            lemma_pad4(length as int);
        }
        r
    }

    /// A run of `length` identical padding bytes.
    pub fn make_padding(length: usize, padding_char: u8) -> (r: Vec<u8>)
        ensures
            r@.len() == length,
            forall|i: int| 0 <= i < r@.len() ==> #[trigger] r@[i] == padding_char,
    {
        let mut result: Vec<u8> = Vec::new();
        for i in 0..length
            invariant
                result@.len() == i,
                forall|q: int| 0 <= q < i ==> #[trigger] result@[q] == padding_char,
        {
            result.push(padding_char);
        }
        result
    }

    /// Assembles the complete binary container: the 12-byte header, the
    /// space-padded JSON chunk and the binary chunk, with every length
    /// field little-endian.
    #[verifier::rlimit(100)]
    pub fn to_glb_bytes(&self, year: u64) -> (r: Result<Vec<u8>, GltfError>)
        requires
            self.wf(),
        ensures
            ({
                let jb = Gltf::gltf_json(*self, year);
                let jclen = jb.len() + pad4(jb.len() as int);
                let blen = self.buffer_data@.len();
                let total = 12 + 8 + jclen + 8 + blen;
                match r {
                    Ok(bytes) => {
                        &&& bytes@ == Gltf::glb_bytes(*self, year)
                        &&& bytes@.len() == total
                        &&& jclen % 4 == 0
                        &&& blen == Gltf::views_length(self.buffer_views@)
                        &&& total <= u32::MAX
                    },
                    Err(e) => {
                        &&& e == GltfError::TooLarge
                        &&& total > u32::MAX
                    },
                }
            }),
    {
        let json_bytes = self.to_json(year);
        let json_length = json_bytes.len();
        let json_padding_length = Self::get_padding_length(json_length);
        let binary_chunk_length = self.buffer_data.len();

        let total128: u128 = 12u128 + 8 + (json_length as u128) + (json_padding_length as u128)
            + 8 + (binary_chunk_length as u128);
        if total128 > 0xffffffffu128 {
            return Err(GltfError::TooLarge);
        }
        let json_chunk_length = json_length + json_padding_length;
        let total = 12 + 8 + json_chunk_length + 8 + binary_chunk_length;

        let mut out: Vec<u8> = Vec::new();
        push_glb_header(&mut out, total as u32);
        proof {
            assert(out@ =~= Gltf::glb_header(*self, year));
        }
        self.push_glb_json_chunk(&mut out, year, json_bytes, json_padding_length);
        self.push_glb_bin_chunk(&mut out);
        proof {
            assert(out@ =~= Gltf::glb_bytes(*self, year));
            let views = self.buffer_views@;
            assert(views.take(views.len() as int) =~= views);
        }
        Ok(out)
    }

    /// Appends the space-padded JSON chunk.
    fn push_glb_json_chunk(&self, out: &mut Vec<u8>, year: u64, json_bytes: Vec<u8>, pad: usize)
        requires
            json_bytes@ == Gltf::gltf_json(*self, year),
            pad == pad4(json_bytes@.len() as int),
            json_bytes@.len() + pad <= u32::MAX,
        ensures
            final(out)@ == old(out)@ + Gltf::glb_json_chunk(*self, year),
    {
        let json_chunk_length = json_bytes.len() + pad;
        push_le4(out, json_chunk_length as u32);
        push_magic(out, 74, 83, 79, 78);
        let mut jb = json_bytes;
        out.append(&mut jb);
        let padding = Self::make_padding(pad, 32);
        proof {
            assert(spaces(pad as int) =~= padding@);
        }
        let mut pb = padding;
        out.append(&mut pb);
        proof {
            assert(final(out)@ =~= old(out)@ + Gltf::glb_json_chunk(*self, year));
        }
    }

    /// Appends the binary chunk.
    fn push_glb_bin_chunk(&self, out: &mut Vec<u8>)
        requires
            self.buffer_data@.len() <= u32::MAX,
        ensures
            final(out)@ == old(out)@ + Gltf::glb_bin_chunk(*self),
    {
        let binary_chunk_length = self.buffer_data.len();
        push_le4(out, binary_chunk_length as u32);
        push_magic(out, 66, 73, 78, 0);
        let ghost bin_start = out@;
        for i in 0..binary_chunk_length
            invariant
                binary_chunk_length == self.buffer_data@.len(),
                out@ == bin_start + self.buffer_data@.take(i as int),
        {
            out.push(self.buffer_data[i]);
            proof {
                assert(out@ =~= bin_start + self.buffer_data@.take(i + 1));
            }
        }
        proof {
            assert(self.buffer_data@.take(binary_chunk_length as int) =~= self.buffer_data@);
            assert(final(out)@ =~= old(out)@ + Gltf::glb_bin_chunk(*self));
        }
    }
}

} // verus!

verus! {

/// The container magic: the four bytes of `glTF`.
pub open spec fn magic_gltf() -> Seq<u8> {
    seq![103u8, 108u8, 84u8, 70u8]
}

/// The JSON chunk magic: the four bytes of `JSON`.
pub open spec fn magic_json() -> Seq<u8> {
    seq![74u8, 83u8, 79u8, 78u8]
}

/// The binary chunk magic: `BIN` followed by a zero byte.
pub open spec fn magic_bin() -> Seq<u8> {
    seq![66u8, 73u8, 78u8, 0u8]
}

/// Appends four magic bytes.
fn push_magic(out: &mut Vec<u8>, a: u8, b: u8, c: u8, d: u8)
    ensures
        final(out)@ == old(out)@ + seq![a, b, c, d],
{
    out.push(a);
    out.push(b);
    out.push(c);
    out.push(d);
    proof {
        assert(final(out)@ =~= old(out)@ + seq![a, b, c, d]);
    }
}

/// Appends the 12-byte container header.
fn push_glb_header(out: &mut Vec<u8>, total: u32)
    ensures
        final(out)@ == old(out)@ + magic_gltf() + le4(2u32) + le4(total),
        final(out)@.len() == old(out)@.len() + 12,
{
    push_magic(out, 103, 108, 84, 70);
    push_le4(out, 2);
    push_le4(out, total);
}

/// Padding that brings `n` up to the next 4-byte boundary.
pub open spec fn pad4(n: int) -> int {
    (4 - n % 4) % 4
}

/// A run of `n` ASCII spaces.
pub open spec fn spaces(n: int) -> Seq<u8> {
    Seq::new(n as nat, |i: int| 32u8)
}

/// The padding is below four and completes a 4-byte boundary.
proof fn lemma_pad4(n: int)
    requires
        0 <= n,
    ensures
        0 <= pad4(n) < 4,
        (n + pad4(n)) % 4 == 0,
{
    let m = n % 4;
    vstd::arithmetic::div_mod::lemma_mod_bound(n, 4);
    vstd::arithmetic::div_mod::lemma_fundamental_div_mod(n, 4);
    if m == 0 {
        vstd::arithmetic::div_mod::lemma_mod_multiples_basic(n / 4, 4);
    } else {
        vstd::arithmetic::div_mod::lemma_small_mod((4 - m) as nat, 4);
        assert(n + pad4(n) == 4 * (n / 4 + 1));
        vstd::arithmetic::div_mod::lemma_mod_multiples_basic(n / 4 + 1, 4);
    }
}

impl Gltf {
    /// The container header: magic, version and total file length.
    pub open spec fn glb_header(g: Gltf, year: u64) -> Seq<u8> {
        let jb = Gltf::gltf_json(g, year);
        let jclen = jb.len() + pad4(jb.len() as int);
        let total = 12 + 8 + jclen + 8 + g.buffer_data@.len() as int;
        magic_gltf() + le4(2) + le4(total as u32)
    }

    /// The JSON chunk: its length, its magic, the document and its space
    /// padding.
    pub open spec fn glb_json_chunk(g: Gltf, year: u64) -> Seq<u8> {
        let jb = Gltf::gltf_json(g, year);
        let pad = pad4(jb.len() as int);
        let jclen = jb.len() + pad;
        le4(jclen as u32) + magic_json() + jb + spaces(pad)
    }

    /// The binary chunk: its length, its magic and the raw packed buffer.
    pub open spec fn glb_bin_chunk(g: Gltf) -> Seq<u8> {
        le4(g.buffer_data@.len() as u32) + magic_bin() + g.buffer_data@
    }

    /// The complete binary container: magic, version and total length,
    /// then the JSON chunk padded with spaces, then the binary chunk.
    pub open spec fn glb_bytes(g: Gltf, year: u64) -> Seq<u8> {
        Gltf::glb_header(g, year) + Gltf::glb_json_chunk(g, year) + Gltf::glb_bin_chunk(g)
    }
}

} // verus!
