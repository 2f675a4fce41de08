//! Assembling the binary buffer and the index tables of a glTF export:
//! buffer views, accessors, meshes, materials, textures and nodes.
//!
//! Floating-point values (positions, colors, transforms) are carried as the
//! bits of their `f32` values and written little-endian, as glTF stores them.
use vstd::prelude::*;

use crate::assetdb::AssetId;
use crate::export::TextureExportData;
use crate::glb::{align_offset, le32, padded, push_le32};
use crate::material::{material_result, resolved_spec, MaterialAssetData, MaterialAssetError};
use crate::mesh::{mesh_check, mesh_error_result, MeshAssetData, MeshAssetError};
use crate::text::{decimal, decimal_string, push_str};

verus! {

/// glTF export failures.
#[derive(Debug, Clone, PartialEq, Eq)]
pub enum ExportError {
    /// IO failure.
    Io(String),
    /// JSON serialization failure.
    Json(String),
    /// Scene had no exportable mesh or point cloud content.
    EmptyScene,
    /// Asset lookup failure.
    Asset(String),
}

/// Mathematical content of an [`ExportError`].
pub enum ExportErrorModel {
    Io(Seq<char>),
    Json(Seq<char>),
    EmptyScene,
    Asset(Seq<char>),
}

impl View for ExportError {
    type V = ExportErrorModel;

    open spec fn view(&self) -> ExportErrorModel {
        match self {
            ExportError::Io(m) => ExportErrorModel::Io(m@),
            ExportError::Json(m) => ExportErrorModel::Json(m@),
            ExportError::EmptyScene => ExportErrorModel::EmptyScene,
            ExportError::Asset(m) => ExportErrorModel::Asset(m@),
        }
    }
}

/// Component type of an accessor.
#[derive(Debug, Clone, Copy, PartialEq, Eq)]
pub enum ComponentType {
    /// 32-bit float (glTF 5126).
    Float,
    /// Unsigned byte (glTF 5121).
    UnsignedByte,
    /// Unsigned 32-bit integer (glTF 5125).
    UnsignedInt,
}

/// Element shape of an accessor.
#[derive(Debug, Clone, Copy, PartialEq, Eq)]
pub enum AccessorKind {
    Scalar,
    Vec2,
    Vec3,
}

/// A typed view of a buffer view.
#[derive(Debug, Clone, Copy, PartialEq, Eq)]
pub struct Accessor {
    pub buffer_view: usize,
    pub component_type: ComponentType,
    pub count: usize,
    pub kind: AccessorKind,
    /// Per-axis minimum (`f32` bits), for positions.
    pub min: Option<[u32; 3]>,
    /// Per-axis maximum (`f32` bits), for positions.
    pub max: Option<[u32; 3]>,
    /// Whether integer components are read as normalized values.
    pub normalized: bool,
}

/// A byte range of the binary buffer.
#[derive(Debug, Clone, Copy, PartialEq, Eq)]
pub struct BufferView {
    pub offset: usize,
    pub length: usize,
}

/// The single primitive of an exported mesh: accessor indices of its
/// attributes and indices, its material, and whether it draws points.
#[derive(Debug, Clone, Copy, PartialEq, Eq)]
pub struct Primitive {
    pub position: usize,
    pub normal: Option<usize>,
    pub texcoord: Option<usize>,
    pub color: Option<usize>,
    pub indices: Option<usize>,
    pub material: usize,
    pub points: bool,
}

/// An exported mesh.
#[derive(Debug, Clone, PartialEq, Eq)]
pub struct GlbMesh {
    pub name: String,
    pub primitive: Primitive,
}

/// How a material is shaded.
#[derive(Debug, Clone, Copy, PartialEq, Eq)]
pub enum MaterialKind {
    /// A surface material: not metallic, roughness 0.9.
    Surface,
    /// The material of point clouds: white, not metallic, roughness 1.0.
    VertexColor,
}

/// An exported material.
#[derive(Debug, Clone, PartialEq, Eq)]
pub struct GlbMaterial {
    pub name: String,
    pub kind: MaterialKind,
    /// Base color factor (`f32` bits).
    pub base_color: [u32; 4],
    /// Index of the base color texture.
    pub texture: Option<usize>,
}

/// An embedded image.
#[derive(Debug, Clone, PartialEq, Eq)]
pub struct GlbImage {
    pub buffer_view: usize,
    pub mime_type: String,
}

/// An exported node: name, translation-rotation-scale (`f32` bits:
/// translation xyz, rotation xyzw, scale xyz), mesh and children.
#[derive(Debug, Clone, PartialEq, Eq)]
pub struct GlbNode {
    pub name: String,
    pub transform: [u32; 10],
    pub mesh: Option<usize>,
    pub children: Vec<usize>,
}

/// Little-endian bytes of 32-bit words, in order.
pub open spec fn le_words(w: Seq<u32>) -> Seq<u8>
    decreases w.len(),
{
    if w.len() == 0 {
        Seq::empty()
    } else {
        le_words(w.drop_last()) + le32(w.last())
    }
}

/// The components of 3-vectors, in order.
pub open spec fn flat3(v: Seq<[u32; 3]>) -> Seq<u32>
    decreases v.len(),
{
    if v.len() == 0 {
        Seq::empty()
    } else {
        flat3(v.drop_last()) + v.last()@
    }
}

/// The components of 2-vectors, in order.
pub open spec fn flat2(v: Seq<[u32; 2]>) -> Seq<u32>
    decreases v.len(),
{
    if v.len() == 0 {
        Seq::empty()
    } else {
        flat2(v.drop_last()) + v.last()@
    }
}

/// The channels of RGB colors, in order.
pub open spec fn flat_rgb(v: Seq<[u8; 3]>) -> Seq<u8>
    decreases v.len(),
{
    if v.len() == 0 {
        Seq::empty()
    } else {
        flat_rgb(v.drop_last()) + v.last()@
    }
}

pub struct MeshRecord {
    pub name: Seq<char>,
    pub primitive: Primitive,
}

pub struct MaterialRecord {
    pub name: Seq<char>,
    pub kind: MaterialKind,
    pub base_color: [u32; 4],
    pub texture: Option<usize>,
}

pub struct ImageRecord {
    pub buffer_view: usize,
    pub mime_type: Seq<char>,
}

pub struct NodeRecord {
    pub name: Seq<char>,
    pub transform: [u32; 10],
    pub mesh: Option<usize>,
    pub children: Seq<usize>,
}

/// Mathematical content of a [`GlbBuilder`].
pub struct GlbState {
    pub bin: Seq<u8>,
    pub views: Seq<BufferView>,
    pub accessors: Seq<Accessor>,
    pub meshes: Seq<MeshRecord>,
    pub materials: Seq<MaterialRecord>,
    pub images: Seq<ImageRecord>,
    pub sampler: bool,
    pub textures: Seq<usize>,
    pub texture_ids: Seq<(AssetId, usize)>,
    pub nodes: Seq<NodeRecord>,
    pub mesh_count: nat,
    pub point_cloud_count: nat,
    pub point_count: nat,
    pub node_count: nat,
    pub texture_count: nat,
}

/// The texture index recorded for asset `id` (the first entry for it).
pub open spec fn texture_lookup(ids: Seq<(AssetId, usize)>, id: AssetId, k: int) -> Option<usize>
    decreases ids.len() - k,
{
    if k < 0 || k >= ids.len() {
        None
    } else if ids[k].0 == id {
        Some(ids[k].1)
    } else {
        texture_lookup(ids, id, k + 1)
    }
}

/// `st` with `bytes` appended at the next 4-byte boundary and a buffer view
/// over them.
pub open spec fn with_block(st: GlbState, bytes: Seq<u8>) -> GlbState {
    let start = padded(st.bin, 0).len();
    GlbState {
        bin: padded(st.bin, 0) + bytes,
        views: st.views.push(BufferView { offset: start as usize, length: bytes.len() as usize }),
        ..st
    }
}

pub open spec fn with_accessor(st: GlbState, a: Accessor) -> GlbState {
    GlbState { accessors: st.accessors.push(a), ..st }
}

/// A block of 3-vectors of floats and its accessor.
pub open spec fn vec3_block(
    st: GlbState,
    data: Seq<[u32; 3]>,
    min: Option<[u32; 3]>,
    max: Option<[u32; 3]>,
) -> GlbState {
    with_accessor(
        with_block(st, le_words(flat3(data))),
        Accessor {
            buffer_view: st.views.len() as usize,
            component_type: ComponentType::Float,
            count: data.len() as usize,
            kind: AccessorKind::Vec3,
            min,
            max,
            normalized: false,
        },
    )
}

/// A block of 2-vectors of floats and its accessor.
pub open spec fn vec2_block(st: GlbState, data: Seq<[u32; 2]>) -> GlbState {
    with_accessor(
        with_block(st, le_words(flat2(data))),
        Accessor {
            buffer_view: st.views.len() as usize,
            component_type: ComponentType::Float,
            count: data.len() as usize,
            kind: AccessorKind::Vec2,
            min: None,
            max: None,
            normalized: false,
        },
    )
}

/// A block of triangle indices and its accessor.
pub open spec fn index_block(st: GlbState, data: Seq<u32>) -> GlbState {
    with_accessor(
        with_block(st, le_words(data)),
        Accessor {
            buffer_view: st.views.len() as usize,
            component_type: ComponentType::UnsignedInt,
            count: data.len() as usize,
            kind: AccessorKind::Scalar,
            min: None,
            max: None,
            normalized: false,
        },
    )
}

/// A block of RGB colors and its accessor of normalized bytes.
pub open spec fn color_block(st: GlbState, data: Seq<[u8; 3]>) -> GlbState {
    with_accessor(
        with_block(st, flat_rgb(data)),
        Accessor {
            buffer_view: st.views.len() as usize,
            component_type: ComponentType::UnsignedByte,
            count: data.len() as usize,
            kind: AccessorKind::Vec3,
            min: None,
            max: None,
            normalized: true,
        },
    )
}

/// The buffers of a mesh: positions (with bounds), normals when there is one
/// per position, indices, and UVs when there is one per position.
pub open spec fn mesh_buffers(
    st: GlbState,
    mesh: MeshAssetData,
    min: Option<[u32; 3]>,
    max: Option<[u32; 3]>,
) -> GlbState {
    let n = mesh.positions@.len();
    let s1 = vec3_block(st, mesh.positions@, min, max);
    let s2 = if mesh.normals@.len() == n {
        vec3_block(s1, mesh.normals@, None, None)
    } else {
        s1
    };
    let s3 = index_block(s2, mesh.indices@);
    if mesh.uvs@.len() == n {
        vec2_block(s3, mesh.uvs@)
    } else {
        s3
    }
}

/// The state after embedding texture bytes `bytes` for asset `id`: the
/// default sampler when there is none yet, the bytes with their view, an
/// image, a texture and the id's entry.
pub open spec fn texture_added(st: GlbState, id: AssetId, bytes: Seq<u8>, mime: Seq<char>) -> GlbState {
    let s = with_block(GlbState { sampler: true, ..st }, bytes);
    GlbState {
        images: s.images.push(ImageRecord { buffer_view: st.views.len() as usize, mime_type: mime }),
        textures: s.textures.push(st.images.len() as usize),
        texture_ids: s.texture_ids.push((id, st.textures.len() as usize)),
        texture_count: s.texture_count + 1,
        ..s
    }
}

/// The base color texture of a material: the one already embedded for its
/// asset, or `texture` embedded now.
pub open spec fn texture_step(
    st: GlbState,
    texture_id: Option<AssetId>,
    texture: Option<TextureExportData>,
) -> (GlbState, Option<usize>) {
    match texture_id {
        None => (st, None),
        Some(id) => match texture_lookup(st.texture_ids, id, 0) {
            Some(t) => (st, Some(t)),
            None => (
                texture_added(st, id, texture->0.bytes@, texture->0.mime_type@),
                Some(st.textures.len() as usize),
            ),
        },
    }
}

/// The state after adding a mesh whose buffers are already in `st`:
/// texture, material and mesh records.
pub open spec fn mesh_records(
    before: GlbState,
    st: GlbState,
    name: Seq<char>,
    mesh: MeshAssetData,
    base_color: [u32; 4],
    texture_id: Option<AssetId>,
    texture: Option<TextureExportData>,
) -> GlbState {
    let (s, tex) = texture_step(st, texture_id, texture);
    let n = mesh.positions@.len();
    let a0 = before.accessors.len();
    let normal = if mesh.normals@.len() == n {
        Some((a0 + 1) as usize)
    } else {
        None
    };
    let index_acc = if mesh.normals@.len() == n {
        a0 + 2
    } else {
        a0 + 1
    };
    let uv = if mesh.uvs@.len() == n {
        Some((index_acc + 1) as usize)
    } else {
        None
    };
    let material = s.materials.len();
    GlbState {
        materials: s.materials.push(
            MaterialRecord {
                name: "material-"@ + decimal(material),
                kind: MaterialKind::Surface,
                base_color,
                texture: tex,
            },
        ),
        meshes: s.meshes.push(
            MeshRecord {
                name,
                primitive: Primitive {
                    position: a0 as usize,
                    normal,
                    texcoord: uv,
                    color: None,
                    indices: Some(index_acc as usize),
                    material: material as usize,
                    points: false,
                },
            },
        ),
        mesh_count: s.mesh_count + 1,
        ..s
    }
}

/// The state after adding a point cloud mesh.
pub open spec fn point_cloud_added(
    st: GlbState,
    name: Seq<char>,
    positions: Seq<[u32; 3]>,
    colors: Seq<[u8; 3]>,
    include_color: bool,
    min: Option<[u32; 3]>,
    max: Option<[u32; 3]>,
) -> GlbState {
    let s1 = vec3_block(st, positions, min, max);
    let with_color = include_color && colors.len() == positions.len();
    let s2 = if with_color {
        color_block(s1, colors)
    } else {
        s1
    };
    let material = s2.materials.len();
    GlbState {
        materials: s2.materials.push(
            MaterialRecord {
                name: "point-cloud-material-"@ + decimal(material),
                kind: MaterialKind::VertexColor,
                base_color: [0x3f80_0000u32, 0x3f80_0000u32, 0x3f80_0000u32, 0x3f80_0000u32],
                texture: None,
            },
        ),
        meshes: s2.meshes.push(
            MeshRecord {
                name,
                primitive: Primitive {
                    position: st.accessors.len() as usize,
                    normal: None,
                    texcoord: None,
                    color: if with_color {
                        Some((st.accessors.len() + 1) as usize)
                    } else {
                        None
                    },
                    indices: None,
                    material: material as usize,
                    points: true,
                },
            },
        ),
        point_cloud_count: s2.point_cloud_count + 1,
        point_count: s2.point_count + positions.len(),
        ..s2
    }
}

/// Buffers and tables of a glTF export under construction.
#[derive(Debug)]
pub struct GlbBuilder {
    bin: Vec<u8>,
    accessors: Vec<Accessor>,
    buffer_views: Vec<BufferView>,
    meshes: Vec<GlbMesh>,
    materials: Vec<GlbMaterial>,
    images: Vec<GlbImage>,
    sampler: bool,
    textures: Vec<usize>,
    texture_ids: Vec<(AssetId, usize)>,
    nodes: Vec<GlbNode>,
    mesh_count: usize,
    point_cloud_count: usize,
    point_count: u64,
    node_count: usize,
    texture_count: usize,
}

impl View for GlbBuilder {
    type V = GlbState;

    closed spec fn view(&self) -> GlbState {
        GlbState {
            bin: self.bin@,
            views: self.buffer_views@,
            accessors: self.accessors@,
            meshes: self.meshes@.map_values(|m: GlbMesh| MeshRecord { name: m.name@, primitive: m.primitive }),
            materials: self.materials@.map_values(
                |m: GlbMaterial|
                    MaterialRecord {
                        name: m.name@,
                        kind: m.kind,
                        base_color: m.base_color,
                        texture: m.texture,
                    },
            ),
            images: self.images@.map_values(
                |i: GlbImage| ImageRecord { buffer_view: i.buffer_view, mime_type: i.mime_type@ },
            ),
            sampler: self.sampler,
            textures: self.textures@,
            texture_ids: self.texture_ids@,
            nodes: self.nodes@.map_values(
                |n: GlbNode|
                    NodeRecord {
                        name: n.name@,
                        transform: n.transform,
                        mesh: n.mesh,
                        children: n.children@,
                    },
            ),
            mesh_count: self.mesh_count as nat,
            point_cloud_count: self.point_cloud_count as nat,
            point_count: self.point_count as nat,
            node_count: self.node_count as nat,
            texture_count: self.texture_count as nat,
        }
    }
}


proof fn lemma_le_words_concat(a: Seq<u32>, b: Seq<u32>)
    ensures
        le_words(a + b) == le_words(a) + le_words(b),
    decreases b.len(),
{
    if b.len() == 0 {
        assert(a + b =~= a);
        assert(le_words(b) =~= Seq::<u8>::empty());
        assert(le_words(a) + le_words(b) =~= le_words(a));
    } else {
        let c = b.drop_last();
        lemma_le_words_concat(a, c);
        assert((a + b).drop_last() =~= a + c);
        assert((a + b).last() == b.last());
        assert(le_words(a) + le_words(b) =~= le_words(a) + le_words(c) + le32(b.last()));
    }
}

proof fn lemma_word1(x: u32)
    ensures
        le_words(seq![x]) == le32(x),
{
    assert(seq![x].drop_last() =~= Seq::<u32>::empty());
    assert(le_words(Seq::<u32>::empty()) == Seq::<u8>::empty());
    assert(le_words(seq![x]) == le_words(seq![x].drop_last()) + le32(x));
    assert(Seq::<u8>::empty() + le32(x) =~= le32(x));
}

proof fn lemma_words2(x: u32, y: u32)
    ensures
        le_words(seq![x, y]) == le32(x) + le32(y),
{
    lemma_word1(x);
    assert(seq![x, y].drop_last() =~= seq![x]);
    assert(le_words(seq![x, y]) == le_words(seq![x, y].drop_last()) + le32(y));
}

proof fn lemma_words3(x: u32, y: u32, z: u32)
    ensures
        le_words(seq![x, y, z]) == le32(x) + le32(y) + le32(z),
{
    lemma_words2(x, y);
    assert(seq![x, y, z].drop_last() =~= seq![x, y]);
    assert(le_words(seq![x, y, z]) == le_words(seq![x, y, z].drop_last()) + le32(z));
}

fn append_vec3s(bin: &mut Vec<u8>, data: &Vec<[u32; 3]>)
    ensures
        final(bin)@ == old(bin)@ + le_words(flat3(data@)),
{
    let mut k: usize = 0;
    assert(flat3(data@.take(0)) =~= Seq::<u32>::empty());
    assert(old(bin)@ + le_words(Seq::<u32>::empty()) =~= old(bin)@);
    while k < data.len()
        invariant
            k <= data.len(),
            bin@ == old(bin)@ + le_words(flat3(data@.take(k as int))),
        decreases data.len() - k,
    {
        let p = data[k];
        push_le32(bin, p[0]);
        push_le32(bin, p[1]);
        push_le32(bin, p[2]);
        proof {
            let t = data@.take(k as int);
            assert(data@.take(k + 1).drop_last() =~= t);
            assert(data@.take(k + 1).last() == p);
            assert(p@ =~= seq![p[0], p[1], p[2]]);
            lemma_le_words_concat(flat3(t), p@);
            lemma_words3(p[0], p[1], p[2]);
            assert(bin@ =~= old(bin)@ + le_words(flat3(data@.take(k + 1))));
        }
        k += 1;
    }
    assert(data@.take(k as int) =~= data@);
}

fn append_vec2s(bin: &mut Vec<u8>, data: &Vec<[u32; 2]>)
    ensures
        final(bin)@ == old(bin)@ + le_words(flat2(data@)),
{
    let mut k: usize = 0;
    assert(flat2(data@.take(0)) =~= Seq::<u32>::empty());
    assert(old(bin)@ + le_words(Seq::<u32>::empty()) =~= old(bin)@);
    while k < data.len()
        invariant
            k <= data.len(),
            bin@ == old(bin)@ + le_words(flat2(data@.take(k as int))),
        decreases data.len() - k,
    {
        let p = data[k];
        push_le32(bin, p[0]);
        push_le32(bin, p[1]);
        proof {
            let t = data@.take(k as int);
            assert(data@.take(k + 1).drop_last() =~= t);
            assert(data@.take(k + 1).last() == p);
            assert(p@ =~= seq![p[0], p[1]]);
            lemma_le_words_concat(flat2(t), p@);
            lemma_words2(p[0], p[1]);
            assert(bin@ =~= old(bin)@ + le_words(flat2(data@.take(k + 1))));
        }
        k += 1;
    }
    assert(data@.take(k as int) =~= data@);
}

fn append_words(bin: &mut Vec<u8>, data: &Vec<u32>)
    ensures
        final(bin)@ == old(bin)@ + le_words(data@),
{
    let mut k: usize = 0;
    assert(old(bin)@ + le_words(data@.take(0)) =~= old(bin)@);
    while k < data.len()
        invariant
            k <= data.len(),
            bin@ == old(bin)@ + le_words(data@.take(k as int)),
        decreases data.len() - k,
    {
        push_le32(bin, data[k]);
        proof {
            assert(data@.take(k + 1).drop_last() =~= data@.take(k as int));
            assert(bin@ =~= old(bin)@ + le_words(data@.take(k + 1)));
        }
        k += 1;
    }
    assert(data@.take(k as int) =~= data@);
}

fn append_rgb(bin: &mut Vec<u8>, data: &Vec<[u8; 3]>)
    ensures
        final(bin)@ == old(bin)@ + flat_rgb(data@),
{
    let mut k: usize = 0;
    assert(old(bin)@ + flat_rgb(data@.take(0)) =~= old(bin)@);
    while k < data.len()
        invariant
            k <= data.len(),
            bin@ == old(bin)@ + flat_rgb(data@.take(k as int)),
        decreases data.len() - k,
    {
        let p = data[k];
        bin.push(p[0]);
        bin.push(p[1]);
        bin.push(p[2]);
        proof {
            assert(data@.take(k + 1).drop_last() =~= data@.take(k as int));
            assert(data@.take(k + 1).last() == p);
            assert(bin@ =~= old(bin)@ + flat_rgb(data@.take(k + 1)));
        }
        k += 1;
    }
    assert(data@.take(k as int) =~= data@);
}

fn append_bytes(bin: &mut Vec<u8>, data: &Vec<u8>)
    ensures
        final(bin)@ == old(bin)@ + data@,
{
    let mut k: usize = 0;
    while k < data.len()
        invariant
            k <= data.len(),
            bin@ == old(bin)@ + data@.take(k as int),
        decreases data.len() - k,
    {
        bin.push(data[k]);
        assert(data@.take(k + 1) =~= data@.take(k as int).push(data@[k as int]));
        k += 1;
    }
    assert(data@.take(k as int) =~= data@);
}


proof fn lemma_le_words_len(w: Seq<u32>)
    ensures
        le_words(w).len() == 4 * w.len(),
    decreases w.len(),
{
    if w.len() > 0 {
        lemma_le_words_len(w.drop_last());
    }
}

proof fn lemma_flat3_len(v: Seq<[u32; 3]>)
    ensures
        flat3(v).len() == 3 * v.len(),
    decreases v.len(),
{
    if v.len() > 0 {
        lemma_flat3_len(v.drop_last());
    }
}

proof fn lemma_flat2_len(v: Seq<[u32; 2]>)
    ensures
        flat2(v).len() == 2 * v.len(),
    decreases v.len(),
{
    if v.len() > 0 {
        lemma_flat2_len(v.drop_last());
    }
}

proof fn lemma_flat_rgb_len(v: Seq<[u8; 3]>)
    ensures
        flat_rgb(v).len() == 3 * v.len(),
    decreases v.len(),
{
    if v.len() > 0 {
        lemma_flat_rgb_len(v.drop_last());
    }
}

proof fn lemma_padded_len(b: Seq<u8>)
    ensures
        b.len() <= padded(b, 0).len() <= b.len() + 3,
{
}

proof fn lemma_block_len(st: GlbState, bytes: Seq<u8>)
    ensures
        with_block(st, bytes).bin.len() <= st.bin.len() + bytes.len() + 3,
{
    lemma_padded_len(st.bin);
}

proof fn lemma_vec3_len(st: GlbState, data: Seq<[u32; 3]>, min: Option<[u32; 3]>, max: Option<[u32; 3]>)
    ensures
        vec3_block(st, data, min, max).bin.len() <= st.bin.len() + 12 * data.len() + 3,
{
    lemma_flat3_len(data);
    lemma_le_words_len(flat3(data));
    lemma_block_len(st, le_words(flat3(data)));
}

/// Adding a mesh grows the buffer by at most its bytes, its texture's and
/// some padding, adds one mesh, at most one texture, and leaves the point
/// cloud and node counts and the nodes as they were.
pub proof fn lemma_mesh_growth(
    st: GlbState,
    mesh: MeshAssetData,
    min: Option<[u32; 3]>,
    max: Option<[u32; 3]>,
    name: Seq<char>,
    base_color: [u32; 4],
    texture_id: Option<AssetId>,
    texture: Option<TextureExportData>,
)
    requires
        texture_id matches Some(id) && texture_lookup(st.texture_ids, id, 0) is None ==> texture is Some,
    ensures
        ({
            let s = mesh_records(st, mesh_buffers(st, mesh, min, max), name, mesh, base_color, texture_id, texture);
            &&& s.bin.len() <= st.bin.len() + mesh_bytes(mesh) + match texture {
                Some(t) => t.bytes@.len(),
                None => 0,
            } + 15
            &&& s.meshes.len() == st.meshes.len() + 1
            &&& s.mesh_count == st.mesh_count + 1
            &&& s.texture_count <= st.texture_count + 1
            &&& s.point_cloud_count == st.point_cloud_count
            &&& s.point_count == st.point_count
            &&& s.node_count == st.node_count
            &&& s.nodes == st.nodes
        }),
{
    let n = mesh.positions@.len();
    lemma_vec3_len(st, mesh.positions@, min, max);
    let s1 = vec3_block(st, mesh.positions@, min, max);
    if mesh.normals@.len() == n {
        lemma_vec3_len(s1, mesh.normals@, None, None);
    }
    let s2 = if mesh.normals@.len() == n {
        vec3_block(s1, mesh.normals@, None, None)
    } else {
        s1
    };
    lemma_le_words_len(mesh.indices@);
    lemma_block_len(s2, le_words(mesh.indices@));
    let s3 = index_block(s2, mesh.indices@);
    if mesh.uvs@.len() == n {
        lemma_flat2_len(mesh.uvs@);
        lemma_le_words_len(flat2(mesh.uvs@));
        lemma_block_len(s3, le_words(flat2(mesh.uvs@)));
    }
    let sb = mesh_buffers(st, mesh, min, max);
    assert(sb.bin.len() <= st.bin.len() + mesh_bytes(mesh) + 12);
    assert(sb.meshes == st.meshes && sb.nodes == st.nodes && sb.texture_count == st.texture_count);
    let ts = texture_step(sb, texture_id, texture);
    match texture_id {
        None => {},
        Some(id) => match texture_lookup(sb.texture_ids, id, 0) {
            Some(_) => {},
            None => {
                lemma_block_len(GlbState { sampler: true, ..sb }, texture->0.bytes@);
            },
        },
    }
    assert(ts.0.meshes == st.meshes && ts.0.nodes == st.nodes);
}

/// Adding a point cloud grows the buffer by at most its bytes and some
/// padding, adds one mesh and one point cloud with its points, and leaves
/// the mesh, texture and node counts and the nodes as they were.
pub proof fn lemma_point_cloud_growth(
    st: GlbState,
    name: Seq<char>,
    positions: Seq<[u32; 3]>,
    colors: Seq<[u8; 3]>,
    include_color: bool,
    min: Option<[u32; 3]>,
    max: Option<[u32; 3]>,
)
    ensures
        ({
            let s = point_cloud_added(st, name, positions, colors, include_color, min, max);
            &&& s.bin.len() <= st.bin.len() + 12 * positions.len() + 3 * colors.len() + 6
            &&& s.meshes.len() == st.meshes.len() + 1
            &&& s.mesh_count == st.mesh_count
            &&& s.texture_count == st.texture_count
            &&& s.point_cloud_count == st.point_cloud_count + 1
            &&& s.point_count == st.point_count + positions.len()
            &&& s.node_count == st.node_count
            &&& s.nodes == st.nodes
        }),
{
    lemma_vec3_len(st, positions, min, max);
    let s1 = vec3_block(st, positions, min, max);
    if include_color && colors.len() == positions.len() {
        lemma_flat_rgb_len(colors);
        lemma_block_len(s1, flat_rgb(colors));
    }
}

/// The bytes a mesh adds to the buffer before padding.
pub open spec fn mesh_bytes(mesh: MeshAssetData) -> nat {
    12 * mesh.positions@.len() + 12 * mesh.normals@.len() + 4 * mesh.indices@.len() + 8
        * mesh.uvs@.len()
}

pub open spec fn bounds_min(b: Option<([u32; 3], [u32; 3])>) -> Option<[u32; 3]> {
    match b {
        Some(b) => Some(b.0),
        None => None,
    }
}

pub open spec fn bounds_max(b: Option<([u32; 3], [u32; 3])>) -> Option<[u32; 3]> {
    match b {
        Some(b) => Some(b.1),
        None => None,
    }
}

impl GlbBuilder {
    /// An empty builder.
    pub fn new() -> (r: Self)
        ensures
            r@ == (GlbState {
                bin: Seq::empty(),
                views: Seq::empty(),
                accessors: Seq::empty(),
                meshes: Seq::empty(),
                materials: Seq::empty(),
                images: Seq::empty(),
                sampler: false,
                textures: Seq::empty(),
                texture_ids: Seq::empty(),
                nodes: Seq::empty(),
                mesh_count: 0,
                point_cloud_count: 0,
                point_count: 0,
                node_count: 0,
                texture_count: 0,
            }),
    {
        let r = GlbBuilder {
            bin: Vec::new(),
            accessors: Vec::new(),
            buffer_views: Vec::new(),
            meshes: Vec::new(),
            materials: Vec::new(),
            images: Vec::new(),
            sampler: false,
            textures: Vec::new(),
            texture_ids: Vec::new(),
            nodes: Vec::new(),
            mesh_count: 0,
            point_cloud_count: 0,
            point_count: 0,
            node_count: 0,
            texture_count: 0,
        };
        assert(r@.meshes =~= Seq::<MeshRecord>::empty());
        assert(r@.materials =~= Seq::<MaterialRecord>::empty());
        assert(r@.images =~= Seq::<ImageRecord>::empty());
        assert(r@.nodes =~= Seq::<NodeRecord>::empty());
        r
    }

    /// Pad the buffer to a 4-byte boundary; the next block starts there.
    fn start_block(&mut self) -> (r: usize)
        requires
            old(self)@.bin.len() + 3 <= usize::MAX,
        ensures
            r == padded(old(self)@.bin, 0).len(),
            final(self)@ == (GlbState { bin: padded(old(self)@.bin, 0), ..old(self)@ }),
    {
        align_offset(&mut self.bin)
    }

    /// Record a view over the bytes appended since `offset`.
    fn end_block(&mut self, offset: usize, length: usize) -> (r: usize)
        ensures
            r == old(self)@.views.len(),
            final(self)@ == (GlbState {
                views: old(self)@.views.push(BufferView { offset, length }),
                ..old(self)@
            }),
    {
        let index = self.buffer_views.len();
        self.buffer_views.push(BufferView { offset, length });
        index
    }

    /// Append a block of 3-vectors of floats with its accessor.
    fn vec3_block(&mut self, data: &Vec<[u32; 3]>, min: Option<[u32; 3]>, max: Option<[u32; 3]>) -> (r: usize)
        requires
            old(self)@.bin.len() + 12 * data.len() + 3 <= usize::MAX,
        ensures
            r == old(self)@.accessors.len(),
            final(self)@ == vec3_block(old(self)@, data@, min, max),
            final(self)@.bin.len() <= old(self)@.bin.len() + 12 * data.len() + 3,
    {
        proof {
            lemma_padded_len(old(self)@.bin);
        }
        let offset = self.start_block();
        append_vec3s(&mut self.bin, data);
        proof {
            lemma_flat3_len(data@);
            lemma_le_words_len(flat3(data@));
        }
        let view = self.end_block(offset, data.len() * 12);
        self.accessor(
            Accessor {
                buffer_view: view,
                component_type: ComponentType::Float,
                count: data.len(),
                kind: AccessorKind::Vec3,
                min,
                max,
                normalized: false,
            },
        )
    }

    /// Append a block of 2-vectors of floats with its accessor.
    fn vec2_block(&mut self, data: &Vec<[u32; 2]>) -> (r: usize)
        requires
            old(self)@.bin.len() + 8 * data.len() + 3 <= usize::MAX,
        ensures
            r == old(self)@.accessors.len(),
            final(self)@ == vec2_block(old(self)@, data@),
            final(self)@.bin.len() <= old(self)@.bin.len() + 8 * data.len() + 3,
    {
        proof {
            lemma_padded_len(old(self)@.bin);
        }
        let offset = self.start_block();
        append_vec2s(&mut self.bin, data);
        proof {
            lemma_flat2_len(data@);
            lemma_le_words_len(flat2(data@));
        }
        let view = self.end_block(offset, data.len() * 8);
        self.accessor(
            Accessor {
                buffer_view: view,
                component_type: ComponentType::Float,
                count: data.len(),
                kind: AccessorKind::Vec2,
                min: None,
                max: None,
                normalized: false,
            },
        )
    }

    /// Append a block of indices with its accessor.
    fn index_block(&mut self, data: &Vec<u32>) -> (r: usize)
        requires
            old(self)@.bin.len() + 4 * data.len() + 3 <= usize::MAX,
        ensures
            r == old(self)@.accessors.len(),
            final(self)@ == index_block(old(self)@, data@),
            final(self)@.bin.len() <= old(self)@.bin.len() + 4 * data.len() + 3,
    {
        proof {
            lemma_padded_len(old(self)@.bin);
        }
        let offset = self.start_block();
        append_words(&mut self.bin, data);
        proof {
            lemma_le_words_len(data@);
        }
        let view = self.end_block(offset, data.len() * 4);
        self.accessor(
            Accessor {
                buffer_view: view,
                component_type: ComponentType::UnsignedInt,
                count: data.len(),
                kind: AccessorKind::Scalar,
                min: None,
                max: None,
                normalized: false,
            },
        )
    }

    /// Append a block of RGB colors with its accessor.
    fn color_block(&mut self, data: &Vec<[u8; 3]>) -> (r: usize)
        requires
            old(self)@.bin.len() + 3 * data.len() + 3 <= usize::MAX,
        ensures
            r == old(self)@.accessors.len(),
            final(self)@ == color_block(old(self)@, data@),
            final(self)@.bin.len() <= old(self)@.bin.len() + 3 * data.len() + 3,
    {
        proof {
            lemma_padded_len(old(self)@.bin);
        }
        let offset = self.start_block();
        append_rgb(&mut self.bin, data);
        proof {
            lemma_flat_rgb_len(data@);
        }
        let view = self.end_block(offset, data.len() * 3);
        self.accessor(
            Accessor {
                buffer_view: view,
                component_type: ComponentType::UnsignedByte,
                count: data.len(),
                kind: AccessorKind::Vec3,
                min: None,
                max: None,
                normalized: true,
            },
        )
    }

    fn accessor(&mut self, a: Accessor) -> (r: usize)
        ensures
            r == old(self)@.accessors.len(),
            final(self)@ == with_accessor(old(self)@, a),
    {
        let index = self.accessors.len();
        self.accessors.push(a);
        index
    }
}


impl GlbBuilder {
    /// The texture index recorded for asset `id`.
    fn lookup_texture(&self, id: AssetId) -> (r: Option<usize>)
        ensures
            r == texture_lookup(self@.texture_ids, id, 0),
    {
        let mut k: usize = 0;
        while k < self.texture_ids.len()
            invariant
                k <= self.texture_ids.len(),
                texture_lookup(self@.texture_ids, id, 0) == texture_lookup(self@.texture_ids, id, k as int),
            decreases self.texture_ids.len() - k,
        {
            if self.texture_ids[k].0.0 == id.0 {
                return Some(self.texture_ids[k].1);
            }
            k += 1;
        }
        None
    }

    /// Whether a texture for asset `id` is already embedded.
    pub fn has_texture(&self, id: AssetId) -> (r: bool)
        ensures
            r == (texture_lookup(self@.texture_ids, id, 0) is Some),
    {
        self.lookup_texture(id).is_some()
    }

    fn add_texture(&mut self, id: AssetId, data: TextureExportData) -> (r: usize)
        requires
            old(self)@.bin.len() + data.bytes.len() + 3 <= usize::MAX,
            old(self)@.texture_count < usize::MAX,
        ensures
            r == old(self)@.textures.len(),
            final(self)@ == texture_added(old(self)@, id, data.bytes@, data.mime_type@),
    {
        let ghost st = self@;
        self.sampler = true;
        let offset = self.start_block();
        append_bytes(&mut self.bin, &data.bytes);
        let view = self.end_block(offset, data.bytes.len());
        let image = self.images.len();
        let ghost before_images = self.images@;
        self.images.push(GlbImage { buffer_view: view, mime_type: data.mime_type });
        let t = self.textures.len();
        self.textures.push(image);
        self.texture_ids.push((id, t));
        self.texture_count = self.texture_count + 1;
        proof {
            let want = texture_added(st, id, data.bytes@, data.mime_type@);
            assert(self@.images =~= want.images);
        }
        t
    }

    fn mesh_buffers(&mut self, mesh: &MeshAssetData, min: Option<[u32; 3]>, max: Option<[u32; 3]>) -> (r: (
        usize,
        Option<usize>,
        usize,
        Option<usize>,
    ))
        requires
            old(self)@.bin.len() + mesh_bytes(*mesh) + 12 <= usize::MAX,
        ensures
            final(self)@ == mesh_buffers(old(self)@, *mesh, min, max),
            final(self)@.bin.len() <= old(self)@.bin.len() + mesh_bytes(*mesh) + 12,
            r.0 == old(self)@.accessors.len(),
            r.1 == (if mesh.normals@.len() == mesh.positions@.len() {
                Some((old(self)@.accessors.len() + 1) as usize)
            } else {
                None
            }),
            r.2 == (if mesh.normals@.len() == mesh.positions@.len() {
                old(self)@.accessors.len() + 2
            } else {
                old(self)@.accessors.len() + 1
            }),
            r.3 == (if mesh.uvs@.len() == mesh.positions@.len() {
                Some((r.2 + 1) as usize)
            } else {
                None
            }),
    {
        let position = self.vec3_block(&mesh.positions, min, max);
        let normal = if mesh.normals.len() == mesh.positions.len() {
            Some(self.vec3_block(&mesh.normals, None, None))
        } else {
            None
        };
        let indices = self.index_block(&mesh.indices);
        let uv = if mesh.uvs.len() == mesh.positions.len() {
            Some(self.vec2_block(&mesh.uvs))
        } else {
            None
        };
        (position, normal, indices, uv)
    }

    fn material_texture(&mut self, texture_id: Option<AssetId>, texture: Option<TextureExportData>) -> (r:
        Option<usize>)
        requires
            old(self)@.bin.len() + match texture {
                Some(t) => t.bytes@.len(),
                None => 0,
            } + 3 <= usize::MAX,
            old(self)@.texture_count < usize::MAX,
            texture_id matches Some(id) && texture_lookup(old(self)@.texture_ids, id, 0) is None
                ==> texture is Some,
        ensures
            (final(self)@, r) == texture_step(old(self)@, texture_id, texture),
    {
        match texture_id {
            None => None,
            Some(id) => match self.lookup_texture(id) {
                Some(t) => Some(t),
                None => {
                    let data = texture.unwrap();
                    Some(self.add_texture(id, data))
                },
            },
        }
    }

    /// Add a triangle mesh: its buffers (positions with `bounds`, normals and
    /// UVs when there is one per position, indices), its material (resolved
    /// from its graph, with its base color texture: `texture` holds the
    /// texture's data when it is not embedded yet) and the mesh itself.
    pub fn add_mesh(
        &mut self,
        name: String,
        mesh: &MeshAssetData,
        material: &MaterialAssetData,
        bounds: Option<([u32; 3], [u32; 3])>,
        texture: Option<TextureExportData>,
    ) -> (r: Result<usize, ExportError>)
        requires
            old(self)@.bin.len() + mesh_bytes(*mesh) + match texture {
                Some(t) => t.bytes@.len(),
                None => 0,
            } + 15 <= usize::MAX,
            old(self)@.mesh_count < usize::MAX,
            old(self)@.texture_count < usize::MAX,
            material.base_color_texture matches Some(id) && texture_lookup(old(self)@.texture_ids, id, 0)
                is None ==> texture is Some,
        ensures
            match mesh_check(
                mesh.positions@.len(),
                mesh.normals@.len(),
                mesh.uvs@.len(),
                mesh.tangents@.len(),
                mesh.indices@,
            ) {
                Err(m) => r matches Err(ExportError::Asset(e)) && e@ == "invalid mesh: "@ + m,
                Ok(()) => match resolved_spec(material@) {
                    Err(m) => r matches Err(ExportError::Asset(e)) && e@ == "serialization error: "@ + m,
                    Ok(res) => r == Ok::<usize, ExportError>(old(self)@.meshes.len() as usize)
                        && final(self)@ == mesh_records(
                        old(self)@,
                        mesh_buffers(old(self)@, *mesh, bounds_min(bounds), bounds_max(bounds)),
                        name@,
                        *mesh,
                        res.base_color,
                        material.base_color_texture,
                        texture,
                    ),
                },
            },
    {
        match mesh.validate() {
            Ok(()) => {},
            Err(e) => {
                let m = match e {
                    MeshAssetError::Invalid(m) => m,
                    MeshAssetError::Serialization(m) => m,
                };
                let mut text = "invalid mesh: ".to_owned();
                push_str(&mut text, m.as_str());
                return Err(ExportError::Asset(text));
            },
        }
        let ghost st0 = self@;
        let (min, max) = match bounds {
            Some(b) => (Some(b.0), Some(b.1)),
            None => (None, None),
        };
        let (position, normal, indices, uv) = self.mesh_buffers(mesh, min, max);
        let ghost st1 = self@;
        let resolved = match material.resolved() {
            Ok(m) => m,
            Err(MaterialAssetError::Serialization(m)) => {
                let mut text = "serialization error: ".to_owned();
                push_str(&mut text, m.as_str());
                return Err(ExportError::Asset(text));
            },
        };
        let tex = self.material_texture(material.base_color_texture, texture);
        let material_index = self.materials.len();
        let mut material_name = "material-".to_owned();
        let d = decimal_string(material_index as u64);
        push_str(&mut material_name, d.as_str());
        self.materials.push(
            GlbMaterial {
                name: material_name,
                kind: MaterialKind::Surface,
                base_color: resolved.base_color,
                texture: tex,
            },
        );
        let mesh_index = self.meshes.len();
        self.meshes.push(
            GlbMesh {
                name,
                primitive: Primitive {
                    position,
                    normal,
                    texcoord: uv,
                    color: None,
                    indices: Some(indices),
                    material: material_index,
                    points: false,
                },
            },
        );
        self.mesh_count = self.mesh_count + 1;
        proof {
            let want = mesh_records(
                st0,
                st1,
                name@,
                *mesh,
                resolved.base_color,
                material.base_color_texture,
                texture,
            );
            assert(self@.materials =~= want.materials);
            assert(self@.meshes =~= want.meshes);
            assert(self@ == want);
        }
        Ok(mesh_index)
    }

    /// Add a point cloud drawn as points: positions with `bounds`, colors
    /// when `include_color` and there is one per position, the vertex color
    /// material and the mesh.
    pub fn add_point_cloud(
        &mut self,
        name: String,
        positions: &Vec<[u32; 3]>,
        colors: &Vec<[u8; 3]>,
        include_color: bool,
        bounds: Option<([u32; 3], [u32; 3])>,
    ) -> (r: Result<usize, ExportError>)
        requires
            old(self)@.bin.len() + 12 * positions.len() + 3 * colors.len() + 6 <= usize::MAX,
            old(self)@.point_cloud_count < usize::MAX,
            old(self)@.point_count + positions.len() <= u64::MAX,
        ensures
            r == Ok::<usize, ExportError>(old(self)@.meshes.len() as usize),
            final(self)@ == point_cloud_added(
                old(self)@,
                name@,
                positions@,
                colors@,
                include_color,
                bounds_min(bounds),
                bounds_max(bounds),
            ),
    {
        let ghost st0 = self@;
        let (min, max) = match bounds {
            Some(b) => (Some(b.0), Some(b.1)),
            None => (None, None),
        };
        let position = self.vec3_block(positions, min, max);
        let color = if include_color && colors.len() == positions.len() {
            Some(self.color_block(colors))
        } else {
            None
        };
        let material_index = self.materials.len();
        let mut material_name = "point-cloud-material-".to_owned();
        let d = decimal_string(material_index as u64);
        push_str(&mut material_name, d.as_str());
        self.materials.push(
            GlbMaterial {
                name: material_name,
                kind: MaterialKind::VertexColor,
                base_color: [0x3f80_0000u32, 0x3f80_0000u32, 0x3f80_0000u32, 0x3f80_0000u32],
                texture: None,
            },
        );
        let mesh_index = self.meshes.len();
        self.meshes.push(
            GlbMesh {
                name,
                primitive: Primitive {
                    position,
                    normal: None,
                    texcoord: None,
                    color,
                    indices: None,
                    material: material_index,
                    points: true,
                },
            },
        );
        self.point_cloud_count = self.point_cloud_count + 1;
        self.point_count = self.point_count + positions.len() as u64;
        proof {
            let want = point_cloud_added(st0, name@, positions@, colors@, include_color, min, max);
            assert(self@.materials =~= want.materials);
            assert(self@.meshes =~= want.meshes);
            assert(self@ == want);
        }
        Ok(mesh_index)
    }

    /// Add a node and return its index.
    pub fn add_node(&mut self, name: String, transform: [u32; 10], mesh: Option<usize>, children: Vec<usize>) -> (r: usize)
        requires
            old(self)@.node_count < usize::MAX,
        ensures
            r == old(self)@.nodes.len(),
            final(self)@ == (GlbState {
                nodes: old(self)@.nodes.push(
                    NodeRecord { name: name@, transform, mesh, children: children@ },
                ),
                node_count: old(self)@.node_count + 1,
                ..old(self)@
            }),
    {
        let ghost st0 = self@;
        let index = self.nodes.len();
        let ghost rec = NodeRecord { name: name@, transform, mesh, children: children@ };
        self.nodes.push(GlbNode { name, transform, mesh, children });
        self.node_count = self.node_count + 1;
        assert(self@.nodes =~= st0.nodes.push(rec));
        index
    }

    /// The binary buffer.
    pub fn bin(&self) -> (r: &Vec<u8>)
        ensures
            r@ == self@.bin,
    {
        &self.bin
    }

    /// The accessors, in order.
    pub fn accessors(&self) -> (r: &Vec<Accessor>)
        ensures
            r@ == self@.accessors,
    {
        &self.accessors
    }

    /// The buffer views, in order.
    pub fn buffer_views(&self) -> (r: &Vec<BufferView>)
        ensures
            r@ == self@.views,
    {
        &self.buffer_views
    }

    /// The meshes, in order.
    pub fn meshes(&self) -> (r: &Vec<GlbMesh>)
        ensures
            r@.map_values(|m: GlbMesh| MeshRecord { name: m.name@, primitive: m.primitive })
                == self@.meshes,
    {
        &self.meshes
    }

    /// The materials, in order.
    pub fn materials(&self) -> (r: &Vec<GlbMaterial>)
        ensures
            r@.map_values(
                |m: GlbMaterial|
                    MaterialRecord {
                        name: m.name@,
                        kind: m.kind,
                        base_color: m.base_color,
                        texture: m.texture,
                    },
            ) == self@.materials,
    {
        &self.materials
    }

    /// The embedded images, in order.
    pub fn images(&self) -> (r: &Vec<GlbImage>)
        ensures
            r@.map_values(|i: GlbImage| ImageRecord { buffer_view: i.buffer_view, mime_type: i.mime_type@ })
                == self@.images,
    {
        &self.images
    }

    /// Whether the default texture sampler is in use.
    pub fn has_sampler(&self) -> (r: bool)
        ensures
            r == self@.sampler,
    {
        self.sampler
    }

    /// The image of each texture, in order.
    pub fn textures(&self) -> (r: &Vec<usize>)
        ensures
            r@ == self@.textures,
    {
        &self.textures
    }

    /// The nodes, in order.
    pub fn nodes(&self) -> (r: &Vec<GlbNode>)
        ensures
            r@.map_values(
                |n: GlbNode|
                    NodeRecord { name: n.name@, transform: n.transform, mesh: n.mesh, children: n.children@ },
            ) == self@.nodes,
    {
        &self.nodes
    }

    /// Export counts: nodes, triangle meshes, point clouds, points, textures.
    pub fn counts(&self) -> (r: (usize, usize, usize, u64, usize))
        ensures
            r.0 == self@.node_count,
            r.1 == self@.mesh_count,
            r.2 == self@.point_cloud_count,
            r.3 == self@.point_count,
            r.4 == self@.texture_count,
    {
        (self.node_count, self.mesh_count, self.point_cloud_count, self.point_count, self.texture_count)
    }
}

/// Whether every buffer view starts at a 4-byte boundary and lies within the
/// buffer.
pub open spec fn views_in_buffer(st: GlbState) -> bool {
    forall|i: int|
        0 <= i < st.views.len() ==> (#[trigger] st.views[i]).offset % 4 == 0 && st.views[i].offset
            + st.views[i].length <= st.bin.len()
}

proof fn lemma_block_keeps(st: GlbState, bytes: Seq<u8>)
    requires
        views_in_buffer(st),
        padded(st.bin, 0).len() + bytes.len() <= usize::MAX,
    ensures
        views_in_buffer(with_block(st, bytes)),
        with_block(st, bytes).bin.len() == padded(st.bin, 0).len() + bytes.len(),
{
    let s = with_block(st, bytes);
    assert(padded(st.bin, 0).len() % 4 == 0);
    assert forall|i: int| 0 <= i < s.views.len() implies (#[trigger] s.views[i]).offset % 4 == 0
        && s.views[i].offset + s.views[i].length <= s.bin.len() by {
        if i < st.views.len() {
            assert(s.views[i] == st.views[i]);
        }
    }
}

proof fn lemma_vec3_keeps(st: GlbState, data: Seq<[u32; 3]>, min: Option<[u32; 3]>, max: Option<[u32; 3]>)
    requires
        views_in_buffer(st),
        st.bin.len() + 12 * data.len() + 3 <= usize::MAX,
    ensures
        views_in_buffer(vec3_block(st, data, min, max)),
        vec3_block(st, data, min, max).bin.len() <= st.bin.len() + 12 * data.len() + 3,
{
    lemma_flat3_len(data);
    lemma_le_words_len(flat3(data));
    lemma_padded_len(st.bin);
    lemma_block_keeps(st, le_words(flat3(data)));
}

proof fn lemma_vec2_keeps(st: GlbState, data: Seq<[u32; 2]>)
    requires
        views_in_buffer(st),
        st.bin.len() + 8 * data.len() + 3 <= usize::MAX,
    ensures
        views_in_buffer(vec2_block(st, data)),
        vec2_block(st, data).bin.len() <= st.bin.len() + 8 * data.len() + 3,
{
    lemma_flat2_len(data);
    lemma_le_words_len(flat2(data));
    lemma_padded_len(st.bin);
    lemma_block_keeps(st, le_words(flat2(data)));
}

proof fn lemma_index_keeps(st: GlbState, data: Seq<u32>)
    requires
        views_in_buffer(st),
        st.bin.len() + 4 * data.len() + 3 <= usize::MAX,
    ensures
        views_in_buffer(index_block(st, data)),
        index_block(st, data).bin.len() <= st.bin.len() + 4 * data.len() + 3,
{
    lemma_le_words_len(data);
    lemma_padded_len(st.bin);
    lemma_block_keeps(st, le_words(data));
}

proof fn lemma_color_keeps(st: GlbState, data: Seq<[u8; 3]>)
    requires
        views_in_buffer(st),
        st.bin.len() + 3 * data.len() + 3 <= usize::MAX,
    ensures
        views_in_buffer(color_block(st, data)),
{
    lemma_flat_rgb_len(data);
    lemma_padded_len(st.bin);
    lemma_block_keeps(st, flat_rgb(data));
}

proof fn lemma_buffers_keep(st: GlbState, mesh: MeshAssetData, min: Option<[u32; 3]>, max: Option<[u32; 3]>)
    requires
        views_in_buffer(st),
        st.bin.len() + mesh_bytes(mesh) + 12 <= usize::MAX,
    ensures
        views_in_buffer(mesh_buffers(st, mesh, min, max)),
        mesh_buffers(st, mesh, min, max).bin.len() <= st.bin.len() + mesh_bytes(mesh) + 12,
{
    let n = mesh.positions@.len();
    lemma_vec3_keeps(st, mesh.positions@, min, max);
    let s1 = vec3_block(st, mesh.positions@, min, max);
    if mesh.normals@.len() == n {
        lemma_vec3_keeps(s1, mesh.normals@, None, None);
    }
    let s2 = if mesh.normals@.len() == n {
        vec3_block(s1, mesh.normals@, None, None)
    } else {
        s1
    };
    lemma_index_keeps(s2, mesh.indices@);
    let s3 = index_block(s2, mesh.indices@);
    if mesh.uvs@.len() == n {
        lemma_vec2_keeps(s3, mesh.uvs@);
    }
}

proof fn lemma_texture_keeps(st: GlbState, texture_id: Option<AssetId>, texture: Option<TextureExportData>)
    requires
        views_in_buffer(st),
        st.bin.len() + match texture {
            Some(t) => t.bytes@.len(),
            None => 0,
        } + 3 <= usize::MAX,
        texture_id matches Some(id) && texture_lookup(st.texture_ids, id, 0) is None ==> texture is Some,
    ensures
        views_in_buffer(texture_step(st, texture_id, texture).0),
{
    if let Some(id) = texture_id {
        if texture_lookup(st.texture_ids, id, 0) is None {
            let s = GlbState { sampler: true, ..st };
            lemma_padded_len(st.bin);
            lemma_block_keeps(s, texture->0.bytes@);
        }
    }
}

/// Every block the builder appends starts at a 4-byte boundary, and every
/// buffer view lies within the buffer: adding a mesh (with its texture) or a
/// point cloud keeps this for all views.
pub proof fn law_views_in_buffer(
    st: GlbState,
    mesh: MeshAssetData,
    name: Seq<char>,
    base_color: [u32; 4],
    texture_id: Option<AssetId>,
    texture: Option<TextureExportData>,
    min: Option<[u32; 3]>,
    max: Option<[u32; 3]>,
    positions: Seq<[u32; 3]>,
    colors: Seq<[u8; 3]>,
    include_color: bool,
)
    requires
        views_in_buffer(st),
        st.bin.len() + mesh_bytes(mesh) + match texture {
            Some(t) => t.bytes@.len(),
            None => 0,
        } + 15 <= usize::MAX,
        st.bin.len() + 12 * positions.len() + 3 * colors.len() + 6 <= usize::MAX,
        texture_id matches Some(id) && texture_lookup(st.texture_ids, id, 0) is None ==> texture is Some,
    ensures
        views_in_buffer(
            mesh_records(st, mesh_buffers(st, mesh, min, max), name, mesh, base_color, texture_id, texture),
        ),
        views_in_buffer(point_cloud_added(st, name, positions, colors, include_color, min, max)),
{
    lemma_buffers_keep(st, mesh, min, max);
    lemma_texture_keeps(mesh_buffers(st, mesh, min, max), texture_id, texture);
    lemma_vec3_keeps(st, positions, min, max);
    if include_color && colors.len() == positions.len() {
        lemma_color_keeps(vec3_block(st, positions, min, max), colors);
    }
}


/// The bytes of buffer view `v`.
pub open spec fn view_data(st: GlbState, v: int) -> Seq<u8> {
    st.bin.subrange(st.views[v].offset as int, st.views[v].offset + st.views[v].length)
}

/// `a` is an initial part of `b`.
pub open spec fn is_prefix(a: Seq<u8>, b: Seq<u8>) -> bool {
    a.len() <= b.len() && b.subrange(0, a.len() as int) == a
}

proof fn lemma_block_view(st: GlbState, bytes: Seq<u8>)
    requires
        padded(st.bin, 0).len() + bytes.len() <= usize::MAX,
    ensures
        with_block(st, bytes).views.len() == st.views.len() + 1,
        forall|i: int| 0 <= i < st.views.len() ==> with_block(st, bytes).views[i] == st.views[i],
        is_prefix(st.bin, with_block(st, bytes).bin),
        with_block(st, bytes).views[st.views.len() as int].offset + with_block(st, bytes).views[st.views.len() as int].length
            <= with_block(st, bytes).bin.len(),
        view_data(with_block(st, bytes), st.views.len() as int) == bytes,
        with_block(st, bytes).accessors == st.accessors,
{
    let s = with_block(st, bytes);
    let start = padded(st.bin, 0).len();
    assert(s.bin.subrange(0, st.bin.len() as int) =~= st.bin);
    assert(s.bin.subrange(start as int, start as int + bytes.len()) =~= bytes);
}

/// Accessor `k` has the given component type, shape and count, and its
/// buffer view lies within the buffer and holds exactly `data`.
pub open spec fn accessor_holds(
    st: GlbState,
    k: int,
    component: ComponentType,
    kind: AccessorKind,
    count: int,
    data: Seq<u8>,
) -> bool {
    &&& 0 <= k < st.accessors.len()
    &&& st.accessors[k].component_type == component
    &&& st.accessors[k].kind == kind
    &&& st.accessors[k].count == count
    &&& st.accessors[k].buffer_view < st.views.len()
    &&& st.views[st.accessors[k].buffer_view as int].offset + st.views[st.accessors[k].buffer_view as int].length
        <= st.bin.len()
    &&& view_data(st, st.accessors[k].buffer_view as int) == data
}

/// `b` extends `a`: the same accessors, `a`'s views first, `a`'s buffer first.
pub open spec fn extends(a: GlbState, b: GlbState) -> bool {
    &&& b.accessors.len() >= a.accessors.len()
    &&& forall|i: int| 0 <= i < a.accessors.len() ==> b.accessors[i] == a.accessors[i]
    &&& b.views.len() >= a.views.len()
    &&& forall|i: int| 0 <= i < a.views.len() ==> b.views[i] == a.views[i]
    &&& is_prefix(a.bin, b.bin)
}

proof fn lemma_holds_kept(a: GlbState, b: GlbState, k: int, component: ComponentType, kind: AccessorKind, count: int, data: Seq<u8>)
    requires
        accessor_holds(a, k, component, kind, count, data),
        extends(a, b),
    ensures
        accessor_holds(b, k, component, kind, count, data),
{
    let v = a.accessors[k].buffer_view as int;
    let o = a.views[v].offset as int;
    let l = a.views[v].length as int;
    assert(b.views[v] == a.views[v]);
    assert(b.bin.subrange(o, o + l) =~= b.bin.subrange(0, a.bin.len() as int).subrange(o, o + l));
}

proof fn lemma_extends_trans(a: GlbState, b: GlbState, c: GlbState)
    requires
        extends(a, b),
        extends(b, c),
    ensures
        extends(a, c),
{
    assert(c.bin.subrange(0, a.bin.len() as int) =~= c.bin.subrange(0, b.bin.len() as int).subrange(
        0,
        a.bin.len() as int,
    ));
}

proof fn lemma_extends_refl(a: GlbState)
    ensures
        extends(a, a),
{
    assert(a.bin.subrange(0, a.bin.len() as int) =~= a.bin);
}

proof fn lemma_block_extends(st: GlbState, bytes: Seq<u8>, acc: Accessor)
    requires
        padded(st.bin, 0).len() + bytes.len() <= usize::MAX,
        acc.buffer_view == st.views.len(),
    ensures
        extends(st, with_accessor(with_block(st, bytes), acc)),
        accessor_holds(
            with_accessor(with_block(st, bytes), acc),
            st.accessors.len() as int,
            acc.component_type,
            acc.kind,
            acc.count as int,
            bytes,
        ),
{
    lemma_block_view(st, bytes);
}

proof fn lemma_texture_extends(st: GlbState, texture_id: Option<AssetId>, texture: Option<TextureExportData>)
    requires
        st.bin.len() + match texture {
            Some(t) => t.bytes@.len(),
            None => 0,
        } + 3 <= usize::MAX,
        texture_id matches Some(id) && texture_lookup(st.texture_ids, id, 0) is None ==> texture is Some,
    ensures
        extends(st, texture_step(st, texture_id, texture).0),
{
    lemma_extends_refl(st);
    if let Some(id) = texture_id {
        if texture_lookup(st.texture_ids, id, 0) is None {
            let s = GlbState { sampler: true, ..st };
            lemma_padded_len(st.bin);
            lemma_block_view(s, texture->0.bytes@);
        }
    }
}

proof fn lemma_vec3_step(st: GlbState, data: Seq<[u32; 3]>, min: Option<[u32; 3]>, max: Option<[u32; 3]>)
    requires
        st.bin.len() + 12 * data.len() + 3 <= usize::MAX,
        st.views.len() < usize::MAX,
    ensures
        extends(st, vec3_block(st, data, min, max)),
        vec3_block(st, data, min, max).views.len() == st.views.len() + 1,
        vec3_block(st, data, min, max).accessors.len() == st.accessors.len() + 1,
        accessor_holds(vec3_block(st, data, min, max), st.accessors.len() as int, ComponentType::Float, AccessorKind::Vec3, data.len() as int, le_words(flat3(data))),
{
    lemma_flat3_len(data);
    lemma_le_words_len(flat3(data));
    lemma_padded_len(st.bin);
    lemma_block_extends(st, le_words(flat3(data)), Accessor {
        buffer_view: st.views.len() as usize,
        component_type: ComponentType::Float,
        count: data.len() as usize,
        kind: AccessorKind::Vec3,
        min,
        max,
        normalized: false,
    });
}

proof fn lemma_vec2_step(st: GlbState, data: Seq<[u32; 2]>)
    requires
        st.bin.len() + 8 * data.len() + 3 <= usize::MAX,
        st.views.len() < usize::MAX,
    ensures
        extends(st, vec2_block(st, data)),
        vec2_block(st, data).views.len() == st.views.len() + 1,
        vec2_block(st, data).accessors.len() == st.accessors.len() + 1,
        accessor_holds(vec2_block(st, data), st.accessors.len() as int, ComponentType::Float, AccessorKind::Vec2, data.len() as int, le_words(flat2(data))),
{
    lemma_flat2_len(data);
    lemma_le_words_len(flat2(data));
    lemma_padded_len(st.bin);
    lemma_block_extends(st, le_words(flat2(data)), Accessor {
        buffer_view: st.views.len() as usize,
        component_type: ComponentType::Float,
        count: data.len() as usize,
        kind: AccessorKind::Vec2,
        min: None,
        max: None,
        normalized: false,
    });
}

proof fn lemma_index_step(st: GlbState, data: Seq<u32>)
    requires
        st.bin.len() + 4 * data.len() + 3 <= usize::MAX,
        st.views.len() < usize::MAX,
    ensures
        extends(st, index_block(st, data)),
        index_block(st, data).views.len() == st.views.len() + 1,
        index_block(st, data).accessors.len() == st.accessors.len() + 1,
        accessor_holds(index_block(st, data), st.accessors.len() as int, ComponentType::UnsignedInt, AccessorKind::Scalar, data.len() as int, le_words(data)),
{
    lemma_le_words_len(data);
    lemma_padded_len(st.bin);
    lemma_block_extends(st, le_words(data), Accessor {
        buffer_view: st.views.len() as usize,
        component_type: ComponentType::UnsignedInt,
        count: data.len() as usize,
        kind: AccessorKind::Scalar,
        min: None,
        max: None,
        normalized: false,
    });
}

/// The buffers of a mesh: positions, normals when one per position, indices
/// and UVs when one per position, each in an accessor of its own.
proof fn lemma_buffers_hold(st: GlbState, mesh: MeshAssetData, min: Option<[u32; 3]>, max: Option<[u32; 3]>)
    requires
        st.bin.len() + mesh_bytes(mesh) + 12 <= usize::MAX,
        st.views.len() + 4 <= usize::MAX,
    ensures
        ({
            let sb = mesh_buffers(st, mesh, min, max);
            let n = mesh.positions@.len();
            let a0 = st.accessors.len() as int;
            let ia = if mesh.normals@.len() == n { a0 + 2 } else { a0 + 1 };
            &&& extends(st, sb)
            &&& accessor_holds(sb, a0, ComponentType::Float, AccessorKind::Vec3, n as int, le_words(flat3(mesh.positions@)))
            &&& mesh.normals@.len() == n ==> accessor_holds(sb, a0 + 1, ComponentType::Float, AccessorKind::Vec3, n as int, le_words(flat3(mesh.normals@)))
            &&& accessor_holds(sb, ia, ComponentType::UnsignedInt, AccessorKind::Scalar, mesh.indices@.len() as int, le_words(mesh.indices@))
            &&& mesh.uvs@.len() == n ==> accessor_holds(sb, ia + 1, ComponentType::Float, AccessorKind::Vec2, n as int, le_words(flat2(mesh.uvs@)))
        }),
{
    let n = mesh.positions@.len();
    let a0 = st.accessors.len() as int;
    let ia = if mesh.normals@.len() == n { a0 + 2 } else { a0 + 1 };
    let pb = le_words(flat3(mesh.positions@));
    let nb = le_words(flat3(mesh.normals@));
    let ib = le_words(mesh.indices@);
    let s1 = vec3_block(st, mesh.positions@, min, max);
    lemma_vec3_step(st, mesh.positions@, min, max);
    lemma_vec3_len(st, mesh.positions@, min, max);
    let s2 = if mesh.normals@.len() == n {
        vec3_block(s1, mesh.normals@, None, None)
    } else {
        s1
    };
    if mesh.normals@.len() == n {
        lemma_vec3_step(s1, mesh.normals@, None, None);
        lemma_vec3_len(s1, mesh.normals@, None, None);
        lemma_holds_kept(s1, s2, a0, ComponentType::Float, AccessorKind::Vec3, n as int, pb);
        lemma_extends_trans(st, s1, s2);
    } else {
        lemma_extends_refl(s1);
    }
    assert(s2.bin.len() <= st.bin.len() + 12 * n + 12 * mesh.normals@.len() + 6);
    let s3 = index_block(s2, mesh.indices@);
    lemma_index_step(s2, mesh.indices@);
    lemma_le_words_len(mesh.indices@);
    lemma_block_len(s2, ib);
    lemma_extends_trans(st, s2, s3);
    lemma_holds_kept(s2, s3, a0, ComponentType::Float, AccessorKind::Vec3, n as int, pb);
    if mesh.normals@.len() == n {
        lemma_holds_kept(s2, s3, a0 + 1, ComponentType::Float, AccessorKind::Vec3, n as int, nb);
    }
    let s4 = if mesh.uvs@.len() == n {
        vec2_block(s3, mesh.uvs@)
    } else {
        s3
    };
    if mesh.uvs@.len() == n {
        lemma_vec2_step(s3, mesh.uvs@);
        lemma_extends_trans(st, s3, s4);
        lemma_holds_kept(s3, s4, a0, ComponentType::Float, AccessorKind::Vec3, n as int, pb);
        if mesh.normals@.len() == n {
            lemma_holds_kept(s3, s4, a0 + 1, ComponentType::Float, AccessorKind::Vec3, n as int, nb);
        }
        lemma_holds_kept(s3, s4, ia, ComponentType::UnsignedInt, AccessorKind::Scalar, mesh.indices@.len() as int, ib);
    }
    assert(s4 == mesh_buffers(st, mesh, min, max));
}

/// A mesh added to the export references its data: its primitive's position
/// accessor holds its positions as three floats each, its index accessor
/// its indices as unsigned words, its normal accessor its normals when it
/// has one per position (none otherwise), and its texture-coordinate
/// accessor its UVs as two floats each when it has one per position (none
/// otherwise). Each accessor's buffer view holds exactly those values as
/// little-endian words.
pub proof fn law_mesh_attributes_referenced(
    st: GlbState,
    mesh: MeshAssetData,
    name: Seq<char>,
    base_color: [u32; 4],
    texture_id: Option<AssetId>,
    texture: Option<TextureExportData>,
    min: Option<[u32; 3]>,
    max: Option<[u32; 3]>,
)
    requires
        st.bin.len() + mesh_bytes(mesh) + match texture {
            Some(t) => t.bytes@.len(),
            None => 0,
        } + 15 <= usize::MAX,
        texture_id matches Some(id) && texture_lookup(st.texture_ids, id, 0) is None ==> texture is Some,
        st.views.len() + 5 <= usize::MAX,
        st.accessors.len() + 4 <= usize::MAX,
    ensures
        ({
            let s = mesh_records(st, mesh_buffers(st, mesh, min, max), name, mesh, base_color, texture_id, texture);
            let p = s.meshes.last().primitive;
            let n = mesh.positions@.len();
            &&& s.meshes.len() == st.meshes.len() + 1
            &&& accessor_holds(s, p.position as int, ComponentType::Float, AccessorKind::Vec3, n as int, le_words(flat3(mesh.positions@)))
            &&& p.indices matches Some(x) && accessor_holds(s, x as int, ComponentType::UnsignedInt, AccessorKind::Scalar, mesh.indices@.len() as int, le_words(mesh.indices@))
            &&& mesh.normals@.len() == n ==> (p.normal matches Some(x) && accessor_holds(s, x as int, ComponentType::Float, AccessorKind::Vec3, n as int, le_words(flat3(mesh.normals@))))
            &&& mesh.normals@.len() != n ==> p.normal is None
            &&& mesh.uvs@.len() == n ==> (p.texcoord matches Some(x) && accessor_holds(s, x as int, ComponentType::Float, AccessorKind::Vec2, mesh.uvs@.len() as int, le_words(flat2(mesh.uvs@))))
            &&& mesh.uvs@.len() != n ==> p.texcoord is None
        }),
{
    let n = mesh.positions@.len();
    let sb = mesh_buffers(st, mesh, min, max);
    lemma_buffers_hold(st, mesh, min, max);
    lemma_mesh_growth(st, mesh, min, max, name, base_color, texture_id, texture);
    lemma_buffers_keep_len(st, mesh, min, max);
    lemma_texture_extends(sb, texture_id, texture);
    let ts = texture_step(sb, texture_id, texture).0;
    let s = mesh_records(st, sb, name, mesh, base_color, texture_id, texture);
    assert(s.bin == ts.bin && s.views == ts.views && s.accessors == ts.accessors);
    assert(extends(sb, s));
    let a0 = st.accessors.len() as int;
    let ia = if mesh.normals@.len() == n { a0 + 2 } else { a0 + 1 };
    lemma_holds_kept(sb, s, a0, ComponentType::Float, AccessorKind::Vec3, n as int, le_words(flat3(mesh.positions@)));
    lemma_holds_kept(sb, s, ia, ComponentType::UnsignedInt, AccessorKind::Scalar, mesh.indices@.len() as int, le_words(mesh.indices@));
    if mesh.normals@.len() == n {
        lemma_holds_kept(sb, s, a0 + 1, ComponentType::Float, AccessorKind::Vec3, n as int, le_words(flat3(mesh.normals@)));
    }
    if mesh.uvs@.len() == n {
        lemma_holds_kept(sb, s, ia + 1, ComponentType::Float, AccessorKind::Vec2, n as int, le_words(flat2(mesh.uvs@)));
    }
}

proof fn lemma_buffers_keep_len(st: GlbState, mesh: MeshAssetData, min: Option<[u32; 3]>, max: Option<[u32; 3]>)
    requires
        st.bin.len() + mesh_bytes(mesh) + 12 <= usize::MAX,
    ensures
        mesh_buffers(st, mesh, min, max).bin.len() <= st.bin.len() + mesh_bytes(mesh) + 12,
{
    let n = mesh.positions@.len();
    lemma_vec3_len(st, mesh.positions@, min, max);
    let s1 = vec3_block(st, mesh.positions@, min, max);
    if mesh.normals@.len() == n {
        lemma_vec3_len(s1, mesh.normals@, None, None);
    }
    let s2 = if mesh.normals@.len() == n {
        vec3_block(s1, mesh.normals@, None, None)
    } else {
        s1
    };
    lemma_le_words_len(mesh.indices@);
    lemma_block_len(s2, le_words(mesh.indices@));
    let s3 = index_block(s2, mesh.indices@);
    if mesh.uvs@.len() == n {
        lemma_flat2_len(mesh.uvs@);
        lemma_le_words_len(flat2(mesh.uvs@));
        lemma_block_len(s3, le_words(flat2(mesh.uvs@)));
    }
}

} // verus!
