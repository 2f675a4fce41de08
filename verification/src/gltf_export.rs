//! Exporting a scene tree to the glTF builder: one node per entity that has
//! content below it, meshes and point clouds added as they are met.
//!
//! The scene arrives as a tree of entities whose assets are already loaded
//! (each load either done or failed); floating-point work (bounds, crop
//! tests, intensity to gray) is the caller's.
use vstd::prelude::*;

use crate::export::TextureExportData;
use crate::glb_builder::{
    bounds_max, bounds_min, lemma_mesh_growth, lemma_point_cloud_growth, mesh_buffers, mesh_bytes,
    mesh_records, point_cloud_added, texture_lookup, ExportError, ExportErrorModel, GlbBuilder,
    GlbState, NodeRecord,
};
use crate::material::{material_result, resolved_spec, MaterialAssetData, MaterialAssetError};
use crate::mesh::{mesh_check, mesh_error_result, MeshAssetData, MeshAssetError};
use crate::pointcloud::PointCloudChunkPayload;
use crate::text::push_str;

verus! {

/// A triangle mesh of an entity with its material, position bounds, and the
/// base color texture when the material has one (or the error of loading it).
#[derive(Debug)]
pub struct MeshExport {
    pub mesh: MeshAssetData,
    pub material: MaterialAssetData,
    /// Per-axis minimum and maximum of the positions (`f32` bits).
    pub bounds: Option<([u32; 3], [u32; 3])>,
    pub texture: Option<Result<TextureExportData, ExportError>>,
}

/// The points of a point cloud entity, with colors when included.
#[derive(Debug, Clone, PartialEq, Eq)]
pub struct PointsExport {
    /// Positions (`f32` bits).
    pub positions: Vec<[u32; 3]>,
    /// RGB colors, one per position when included.
    pub colors: Vec<[u8; 3]>,
    /// Whether the colors are written.
    pub include_color: bool,
    /// Per-axis minimum and maximum of the positions (`f32` bits).
    pub bounds: Option<([u32; 3], [u32; 3])>,
}

/// What an entity shows: nothing, a mesh, or a point cloud (which may have
/// no points left); each either loaded or the error of loading it.
#[derive(Debug)]
pub enum EntityContent {
    Nothing,
    Mesh(Result<MeshExport, ExportError>),
    PointCloud(Result<Option<PointsExport>, ExportError>),
}

/// An entity of the scene tree.
#[derive(Debug)]
pub struct GltfEntity {
    /// Its name, or its id when it has none.
    pub label: String,
    /// Translation xyz, rotation xyzw and scale xyz (`f32` bits).
    pub transform: [u32; 10],
    pub content: EntityContent,
    pub children: Vec<GltfEntity>,
}

pub open spec fn loaded_texture(t: Option<Result<TextureExportData, ExportError>>) -> Option<TextureExportData> {
    match t {
        Some(Ok(data)) => Some(data),
        _ => None,
    }
}

pub open spec fn texture_len(t: Option<Result<TextureExportData, ExportError>>) -> nat {
    match t {
        Some(Ok(data)) => data.bytes@.len(),
        _ => 0,
    }
}

/// The builder's state after adding a mesh named `name`, or the error: the
/// mesh's check, its material's resolution, then loading its texture when
/// the texture is not embedded yet.
pub open spec fn mesh_outcome(st: GlbState, name: Seq<char>, m: MeshExport) -> Result<GlbState, ExportErrorModel> {
    let mesh = m.mesh;
    match mesh_check(mesh.positions@.len(), mesh.normals@.len(), mesh.uvs@.len(), mesh.tangents@.len(), mesh.indices@) {
        Err(msg) => Err(ExportErrorModel::Asset("invalid mesh: "@ + msg)),
        Ok(()) => match resolved_spec(m.material@) {
            Err(msg) => Err(ExportErrorModel::Asset("serialization error: "@ + msg)),
            Ok(res) => {
                let needed = m.material.base_color_texture matches Some(id) && texture_lookup(
                    st.texture_ids,
                    id,
                    0,
                ) is None;
                if needed && m.texture matches Some(Err(x)) {
                    Err(m.texture->0->Err_0@)
                } else {
                    Ok(
                        mesh_records(
                            st,
                            mesh_buffers(st, mesh, bounds_min(m.bounds), bounds_max(m.bounds)),
                            name,
                            mesh,
                            res.base_color,
                            m.material.base_color_texture,
                            loaded_texture(m.texture),
                        ),
                    )
                }
            },
        },
    }
}

/// The mesh index of an entity's content and the builder's state after it.
pub open spec fn content_outcome(e: GltfEntity, st: GlbState) -> Result<(Option<usize>, GlbState), ExportErrorModel> {
    match e.content {
        EntityContent::Nothing => Ok((None, st)),
        EntityContent::Mesh(Err(x)) => Err(x@),
        EntityContent::Mesh(Ok(m)) => match mesh_outcome(st, e.label@, m) {
            Err(x) => Err(x),
            Ok(s) => Ok((Some(st.meshes.len() as usize), s)),
        },
        EntityContent::PointCloud(Err(x)) => Err(x@),
        EntityContent::PointCloud(Ok(None)) => Ok((None, st)),
        EntityContent::PointCloud(Ok(Some(p))) => Ok(
            (
                Some(st.meshes.len() as usize),
                point_cloud_added(
                    st,
                    e.label@,
                    p.positions@,
                    p.colors@,
                    p.include_color,
                    bounds_min(p.bounds),
                    bounds_max(p.bounds),
                ),
            ),
        ),
    }
}

/// The node of entity `e` and the builder's state after it: the nodes of
/// its children first, then its content; an entity with neither gets no
/// node.
pub open spec fn entity_node(e: GltfEntity, st: GlbState) -> Result<(Option<usize>, GlbState), ExportErrorModel>
    decreases e, e.children@.len() + 1,
{
    match child_nodes(e, e.children@.len() as int, st) {
        Err(x) => Err(x),
        Ok((kids, st1)) => match content_outcome(e, st1) {
            Err(x) => Err(x),
            Ok((mesh, st2)) => if mesh is None && kids.len() == 0 {
                Ok((None, st2))
            } else {
                Ok(
                    (
                        Some(st2.nodes.len() as usize),
                        GlbState {
                            nodes: st2.nodes.push(
                                NodeRecord { name: e.label@, transform: e.transform, mesh, children: kids },
                            ),
                            node_count: st2.node_count + 1,
                            ..st2
                        },
                    ),
                )
            },
        },
    }
}

/// The node indices of the first `k` children of `e` that got a node.
pub open spec fn child_nodes(e: GltfEntity, k: int, st: GlbState) -> Result<(Seq<usize>, GlbState), ExportErrorModel>
    decreases e, k,
{
    if k <= 0 || k > e.children@.len() {
        Ok((Seq::empty(), st))
    } else {
        match child_nodes(e, k - 1, st) {
            Err(x) => Err(x),
            Ok((kids, st1)) => match entity_node(e.children@[k - 1], st1) {
                Err(x) => Err(x),
                Ok((None, st2)) => Ok((kids, st2)),
                Ok((Some(i), st2)) => Ok((kids.push(i), st2)),
            },
        }
    }
}

/// Buffer bytes an entity's own content may add.
pub open spec fn content_bytes(e: GltfEntity) -> nat {
    match e.content {
        EntityContent::Mesh(Ok(m)) => mesh_bytes(m.mesh) + texture_len(m.texture) + 15,
        EntityContent::PointCloud(Ok(Some(p))) => 12 * p.positions@.len() + 3 * p.colors@.len() + 6,
        _ => 0,
    }
}

/// Points an entity's own content adds.
pub open spec fn content_points(e: GltfEntity) -> nat {
    match e.content {
        EntityContent::PointCloud(Ok(Some(p))) => p.positions@.len(),
        _ => 0,
    }
}

/// Entities, buffer bytes and points of the tree under `e`.
pub open spec fn tree_size(e: GltfEntity) -> (nat, nat, nat)
    decreases e, e.children@.len() + 1,
{
    let k = children_size(e, e.children@.len() as int);
    (1 + k.0, content_bytes(e) + k.1, content_points(e) + k.2)
}

/// Entities, buffer bytes and points of the trees of the first `k` children.
pub open spec fn children_size(e: GltfEntity, k: int) -> (nat, nat, nat)
    decreases e, k,
{
    if k <= 0 || k > e.children@.len() {
        (0, 0, 0)
    } else {
        let a = children_size(e, k - 1);
        let b = tree_size(e.children@[k - 1]);
        (a.0 + b.0, a.1 + b.1, a.2 + b.2)
    }
}

/// Every mesh whose material has a base color texture comes with that
/// texture (or the error of loading it), in the whole tree.
pub open spec fn textures_given(e: GltfEntity) -> bool
    decreases e, e.children@.len() + 1,
{
    &&& (e.content matches EntityContent::Mesh(Ok(m)) ==> (m.material.base_color_texture is Some
        ==> m.texture is Some))
    &&& children_given(e, e.children@.len() as int)
}

pub open spec fn children_given(e: GltfEntity, k: int) -> bool
    decreases e, k,
{
    if k <= 0 || k > e.children@.len() {
        true
    } else {
        children_given(e, k - 1) && textures_given(e.children@[k - 1])
    }
}

/// The builder can take a tree of the given size.
pub open spec fn room_for(st: GlbState, size: (nat, nat, nat)) -> bool {
    &&& st.bin.len() + size.1 <= usize::MAX
    &&& st.mesh_count + size.0 < usize::MAX
    &&& st.texture_count + size.0 < usize::MAX
    &&& st.point_cloud_count + size.0 < usize::MAX
    &&& st.node_count + size.0 < usize::MAX
    &&& st.point_count + size.2 <= u64::MAX
}

/// `after` grew from `before` by no more than a tree of the given size.
pub open spec fn grew_within(before: GlbState, after: GlbState, size: (nat, nat, nat)) -> bool {
    &&& after.bin.len() <= before.bin.len() + size.1
    &&& after.mesh_count <= before.mesh_count + size.0
    &&& after.texture_count <= before.texture_count + size.0
    &&& after.point_cloud_count <= before.point_cloud_count + size.0
    &&& after.node_count <= before.node_count + size.0
    &&& after.point_count <= before.point_count + size.2
}

fn copy_error(e: &ExportError) -> (r: ExportError)
    ensures
        r@ == e@,
{
    match e {
        ExportError::Io(m) => ExportError::Io(m.clone()),
        ExportError::Json(m) => ExportError::Json(m.clone()),
        ExportError::EmptyScene => ExportError::EmptyScene,
        ExportError::Asset(m) => ExportError::Asset(m.clone()),
    }
}

fn copy_texture(t: &TextureExportData) -> (r: TextureExportData)
    ensures
        r.bytes@ == t.bytes@,
        r.mime_type@ == t.mime_type@,
{
    TextureExportData { bytes: t.bytes.clone(), mime_type: t.mime_type.clone() }
}

/// Adds the mesh of an entity named `name`.
fn export_mesh(builder: &mut GlbBuilder, name: String, m: &MeshExport) -> (r: Result<usize, ExportError>)
    requires
        old(builder)@.bin.len() + mesh_bytes(m.mesh) + texture_len(m.texture) + 15 <= usize::MAX,
        old(builder)@.mesh_count < usize::MAX,
        old(builder)@.texture_count < usize::MAX,
        m.material.base_color_texture is Some ==> m.texture is Some,
    ensures
        match r {
            Ok(i) => i == old(builder)@.meshes.len() as usize && mesh_outcome(old(builder)@, name@, *m) == Ok::<
                GlbState,
                ExportErrorModel,
            >(final(builder)@),
            Err(x) => mesh_outcome(old(builder)@, name@, *m) == Err::<GlbState, ExportErrorModel>(x@),
        },
{
    let needed = match m.material.base_color_texture {
        Some(id) => !builder.has_texture(id),
        None => false,
    };
    let texture = match &m.texture {
        None => None,
        Some(Ok(t)) => Some(copy_texture(t)),
        Some(Err(x)) => {
            if needed {
                // The mesh and material are checked before the texture is loaded.
                match m.mesh.validate() {
                    Ok(()) => {},
                    Err(e) => {
                        let msg = match e {
                            MeshAssetError::Invalid(msg) => msg,
                            MeshAssetError::Serialization(msg) => msg,
                        };
                        let mut text = "invalid mesh: ".to_owned();
                        push_str(&mut text, msg.as_str());
                        return Err(ExportError::Asset(text));
                    },
                }
                match m.material.resolved() {
                    Ok(_) => {},
                    Err(MaterialAssetError::Serialization(msg)) => {
                        let mut text = "serialization error: ".to_owned();
                        push_str(&mut text, msg.as_str());
                        return Err(ExportError::Asset(text));
                    },
                }
                return Err(copy_error(x));
            }
            None
        },
    };
    let ghost st0 = builder@;
    let r = builder.add_mesh(name, &m.mesh, &m.material, m.bounds, texture);
    proof {
        assert(texture_step_same(loaded_texture(m.texture), texture));
        if let Ok(res) = resolved_spec(m.material@) {
            let sb = mesh_buffers(st0, m.mesh, bounds_min(m.bounds), bounds_max(m.bounds));
            lemma_same_texture_records(
                st0,
                sb,
                name@,
                m.mesh,
                res.base_color,
                m.material.base_color_texture,
                loaded_texture(m.texture),
                texture,
            );
        }
    }
    r
}

proof fn lemma_same_texture_records(
    before: GlbState,
    st: GlbState,
    name: Seq<char>,
    mesh: MeshAssetData,
    base_color: [u32; 4],
    texture_id: Option<crate::assetdb::AssetId>,
    a: Option<TextureExportData>,
    b: Option<TextureExportData>,
)
    requires
        texture_step_same(a, b),
    ensures
        mesh_records(before, st, name, mesh, base_color, texture_id, a) == mesh_records(
            before,
            st,
            name,
            mesh,
            base_color,
            texture_id,
            b,
        ),
{
}

/// Two optional textures with the same bytes and MIME type.
pub open spec fn texture_step_same(a: Option<TextureExportData>, b: Option<TextureExportData>) -> bool {
    match (a, b) {
        (Some(x), Some(y)) => x.bytes@ == y.bytes@ && x.mime_type@ == y.mime_type@,
        (None, None) => true,
        _ => false,
    }
}

/// Adds the content of entity `e`.
fn export_content(builder: &mut GlbBuilder, e: &GltfEntity) -> (r: Result<Option<usize>, ExportError>)
    requires
        room_for(old(builder)@, (1, content_bytes(*e), content_points(*e))),
        e.content matches EntityContent::Mesh(Ok(m)) ==> (m.material.base_color_texture is Some
            ==> m.texture is Some),
    ensures
        match r {
            Ok(o) => {
                &&& content_outcome(*e, old(builder)@) == Ok::<(Option<usize>, GlbState), ExportErrorModel>(
                    (o, final(builder)@),
                )
                &&& grew_within(old(builder)@, final(builder)@, (1, content_bytes(*e), content_points(*e)))
                &&& final(builder)@.nodes == old(builder)@.nodes
            },
            Err(x) => content_outcome(*e, old(builder)@) == Err::<(Option<usize>, GlbState), ExportErrorModel>(
                x@,
            ),
        },
{
    let ghost st0 = builder@;
    match &e.content {
        EntityContent::Nothing => Ok(None),
        EntityContent::Mesh(Err(x)) => Err(copy_error(x)),
        EntityContent::Mesh(Ok(m)) => {
            let r = export_mesh(builder, e.label.clone(), m);
            proof {
                if r is Ok && resolved_spec(m.material@) is Ok {
                    let res = resolved_spec(m.material@)->Ok_0;
                    lemma_mesh_growth(
                        st0,
                        m.mesh,
                        bounds_min(m.bounds),
                        bounds_max(m.bounds),
                        e.label@,
                        res.base_color,
                        m.material.base_color_texture,
                        loaded_texture(m.texture),
                    );
                }
            }
            match r {
                Ok(i) => Ok(Some(i)),
                Err(x) => Err(x),
            }
        },
        EntityContent::PointCloud(Err(x)) => Err(copy_error(x)),
        EntityContent::PointCloud(Ok(None)) => Ok(None),
        EntityContent::PointCloud(Ok(Some(p))) => {
            let r = builder.add_point_cloud(e.label.clone(), &p.positions, &p.colors, p.include_color, p.bounds);
            proof {
                lemma_point_cloud_growth(
                    st0,
                    e.label@,
                    p.positions@,
                    p.colors@,
                    p.include_color,
                    bounds_min(p.bounds),
                    bounds_max(p.bounds),
                );
            }
            match r {
                Ok(i) => Ok(Some(i)),
                Err(x) => Err(x),
            }
        },
    }
}

proof fn lemma_children_size_mono(e: GltfEntity, i: int, j: int)
    requires
        0 <= i <= j <= e.children@.len(),
    ensures
        children_size(e, i).0 <= children_size(e, j).0,
        children_size(e, i).1 <= children_size(e, j).1,
        children_size(e, i).2 <= children_size(e, j).2,
    decreases j - i,
{
    if i < j {
        lemma_children_size_mono(e, i, j - 1);
    }
}

proof fn lemma_children_given(e: GltfEntity, k: int, i: int)
    requires
        0 <= i < k <= e.children@.len(),
        children_given(e, k),
    ensures
        textures_given(e.children@[i]),
    decreases k,
{
    if i < k - 1 {
        lemma_children_given(e, k - 1, i);
    }
}

proof fn lemma_child_nodes_err(e: GltfEntity, k: int, n: int, st: GlbState)
    requires
        0 <= k <= n <= e.children@.len(),
        child_nodes(e, k, st) is Err,
    ensures
        child_nodes(e, n, st) == child_nodes(e, k, st),
    decreases n - k,
{
    if k < n {
        lemma_child_nodes_err(e, k, n - 1, st);
    }
}

/// Adds the nodes of the children of `e`, in order; returns the indices of
/// those that got a node.
fn export_children(builder: &mut GlbBuilder, e: &GltfEntity) -> (r: Result<Vec<usize>, ExportError>)
    requires
        room_for(old(builder)@, children_size(*e, e.children@.len() as int)),
        children_given(*e, e.children@.len() as int),
    ensures
        match r {
            Ok(kids) => {
                &&& child_nodes(*e, e.children@.len() as int, old(builder)@) == Ok::<
                    (Seq<usize>, GlbState),
                    ExportErrorModel,
                >((kids@, final(builder)@))
                &&& grew_within(old(builder)@, final(builder)@, children_size(*e, e.children@.len() as int))
            },
            Err(x) => child_nodes(*e, e.children@.len() as int, old(builder)@) == Err::<
                (Seq<usize>, GlbState),
                ExportErrorModel,
            >(x@),
        },
    decreases e, 0int,
{
    let ghost st0 = builder@;
    let ghost n = e.children@.len() as int;
    let mut kids: Vec<usize> = Vec::new();
    let mut i: usize = 0;
    while i < e.children.len()
        invariant
            i <= e.children.len(),
            n == e.children@.len(),
            st0 == old(builder)@,
            room_for(st0, children_size(*e, n)),
            children_given(*e, n),
            child_nodes(*e, i as int, st0) == Ok::<(Seq<usize>, GlbState), ExportErrorModel>(
                (kids@, builder@),
            ),
            grew_within(st0, builder@, children_size(*e, i as int)),
        decreases e.children.len() - i,
    {
        proof {
            lemma_children_size_mono(*e, i + 1, n);
            lemma_children_given(*e, n, i as int);
        }
        let ghost before = builder@;
        let out = export_entity_tree(builder, &e.children[i]);
        match out {
            Err(x) => {
                proof {
                    lemma_child_nodes_err(*e, i + 1, n, st0);
                }
                return Err(x);
            },
            Ok(None) => {},
            Ok(Some(k)) => {
                kids.push(k);
            },
        }
        i = i + 1;
    }
    Ok(kids)
}

/// Adds the node of entity `e` (after the nodes of its children and its
/// content), if it has content below it.
fn export_entity_tree(builder: &mut GlbBuilder, e: &GltfEntity) -> (r: Result<Option<usize>, ExportError>)
    requires
        room_for(old(builder)@, tree_size(*e)),
        textures_given(*e),
    ensures
        match r {
            Ok(o) => {
                &&& entity_node(*e, old(builder)@) == Ok::<(Option<usize>, GlbState), ExportErrorModel>(
                    (o, final(builder)@),
                )
                &&& grew_within(old(builder)@, final(builder)@, tree_size(*e))
            },
            Err(x) => entity_node(*e, old(builder)@) == Err::<(Option<usize>, GlbState), ExportErrorModel>(
                x@,
            ),
        },
    decreases e, 1int,
{
    let ghost st0 = builder@;
    let kids = match export_children(builder, e) {
        Ok(k) => k,
        Err(x) => {
            return Err(x);
        },
    };
    let ghost st1 = builder@;
    let mesh = match export_content(builder, e) {
        Ok(m) => m,
        Err(x) => {
            return Err(x);
        },
    };
    if mesh.is_none() && kids.len() == 0 {
        return Ok(None);
    }
    let index = builder.add_node(e.label.clone(), e.transform, mesh, kids);
    Ok(Some(index))
}

/// The state of a new builder.
pub open spec fn empty_state() -> GlbState {
    GlbState {
        bin: Seq::empty(),
        views: Seq::empty(),
        accessors: Seq::empty(),
        meshes: Seq::empty(),
        materials: Seq::empty(),
        images: Seq::empty(),
        sampler: false,
        textures: Seq::empty(),
        texture_ids: Seq::empty(),
        nodes: Seq::empty(),
        mesh_count: 0,
        point_cloud_count: 0,
        point_count: 0,
        node_count: 0,
        texture_count: 0,
    }
}

/// The root node indices of the first `k` root entities and the builder's
/// state after them, or the first error.
pub open spec fn root_nodes(roots: Seq<GltfEntity>, k: int) -> Result<(Seq<usize>, GlbState), ExportErrorModel>
    decreases k,
{
    if k <= 0 {
        Ok((Seq::empty(), empty_state()))
    } else {
        match root_nodes(roots, k - 1) {
            Err(x) => Err(x),
            Ok((rs, st1)) => match entity_node(roots[k - 1], st1) {
                Err(x) => Err(x),
                Ok((None, st2)) => Ok((rs, st2)),
                Ok((Some(i), st2)) => Ok((rs.push(i), st2)),
            },
        }
    }
}

/// Entities, buffer bytes and points of the trees of the first `k` roots.
pub open spec fn forest_size(roots: Seq<GltfEntity>, k: int) -> (nat, nat, nat)
    decreases k,
{
    if k <= 0 {
        (0, 0, 0)
    } else {
        let a = forest_size(roots, k - 1);
        let b = tree_size(roots[k - 1]);
        (a.0 + b.0, a.1 + b.1, a.2 + b.2)
    }
}

/// The root nodes and the builder's state for a scene, or the first error;
/// a scene without meshes or point clouds is empty.
pub open spec fn glb_outcome(roots: Seq<GltfEntity>) -> Result<(Seq<usize>, GlbState), ExportErrorModel> {
    match root_nodes(roots, roots.len() as int) {
        Err(x) => Err(x),
        Ok((rs, st)) => if st.mesh_count == 0 && st.point_cloud_count == 0 {
            Err(ExportErrorModel::EmptyScene)
        } else {
            Ok((rs, st))
        },
    }
}

proof fn lemma_forest_size_mono(roots: Seq<GltfEntity>, i: int, j: int)
    requires
        0 <= i <= j,
    ensures
        forest_size(roots, i).0 <= forest_size(roots, j).0,
        forest_size(roots, i).1 <= forest_size(roots, j).1,
        forest_size(roots, i).2 <= forest_size(roots, j).2,
    decreases j - i,
{
    if i < j {
        lemma_forest_size_mono(roots, i, j - 1);
    }
}

proof fn lemma_root_nodes_err(roots: Seq<GltfEntity>, k: int, n: int)
    requires
        0 <= k <= n,
        root_nodes(roots, k) is Err,
    ensures
        root_nodes(roots, n) == root_nodes(roots, k),
    decreases n - k,
{
    if k < n {
        lemma_root_nodes_err(roots, k, n - 1);
    }
}

/// Builds the glTF content of a scene given by its root entities (those
/// without a parent, in scene order): the builder with every tree added and
/// the indices of the root nodes.
pub fn build_scene_glb(roots: &Vec<GltfEntity>) -> (r: Result<(GlbBuilder, Vec<usize>), ExportError>)
    requires
        room_for(empty_state(), forest_size(roots@, roots@.len() as int)),
        forall|i: int| 0 <= i < roots@.len() ==> textures_given(#[trigger] roots@[i]),
    ensures
        match r {
            Ok((builder, rs)) => glb_outcome(roots@) == Ok::<(Seq<usize>, GlbState), ExportErrorModel>(
                (rs@, builder@),
            ),
            Err(x) => glb_outcome(roots@) == Err::<(Seq<usize>, GlbState), ExportErrorModel>(x@),
        },
{
    let mut builder = GlbBuilder::new();
    let mut rs: Vec<usize> = Vec::new();
    let ghost n = roots@.len() as int;
    let mut i: usize = 0;
    while i < roots.len()
        invariant
            i <= roots.len(),
            n == roots@.len(),
            room_for(empty_state(), forest_size(roots@, n)),
            forall|i: int| 0 <= i < roots@.len() ==> textures_given(#[trigger] roots@[i]),
            root_nodes(roots@, i as int) == Ok::<(Seq<usize>, GlbState), ExportErrorModel>((rs@, builder@)),
            grew_within(empty_state(), builder@, forest_size(roots@, i as int)),
        decreases roots.len() - i,
    {
        proof {
            lemma_forest_size_mono(roots@, i + 1, n);
        }
        let out = export_entity_tree(&mut builder, &roots[i]);
        match out {
            Err(x) => {
                proof {
                    lemma_root_nodes_err(roots@, i + 1, n);
                }
                return Err(x);
            },
            Ok(None) => {},
            Ok(Some(k)) => {
                rs.push(k);
            },
        }
        i = i + 1;
    }
    let (_, mesh_count, point_cloud_count, _, _) = builder.counts();
    if mesh_count == 0 && point_cloud_count == 0 {
        return Err(ExportError::EmptyScene);
    }
    Ok((builder, rs))
}

/// A chunk of a point cloud entity, cropped to the entity's crop box, with
/// the gray level of each point's intensity.
#[derive(Debug, Clone, PartialEq)]
pub struct GrayChunk {
    pub payload: PointCloudChunkPayload,
    /// Intensity of each point as a byte (`0..=1` scaled to `0..=255`).
    pub gray: Vec<u8>,
}

/// Positions and colors collected from point cloud chunks.
pub struct Collected {
    pub positions: Seq<[u32; 3]>,
    pub colors: Seq<[u8; 3]>,
}

/// Colors of `n` points: RGB (white where missing) when the asset has RGB,
/// else gray from intensity when it has intensity, else none.
pub open spec fn chunk_colors(c: GrayChunk, has_rgb: bool, has_intensity: bool) -> Seq<[u8; 3]> {
    let n = c.payload.positions@.len();
    if has_rgb {
        Seq::new(n, |i: int| if i < c.payload.colors@.len() { c.payload.colors@[i] } else { [255u8, 255u8, 255u8] })
    } else if has_intensity {
        Seq::new(n, |i: int| [c.gray@[i], c.gray@[i], c.gray@[i]])
    } else {
        Seq::empty()
    }
}

/// What the first `k` chunks contribute (chunks without points skipped),
/// or the first loading error.
pub open spec fn collected_upto(
    chunks: Seq<Result<GrayChunk, ExportError>>,
    has_rgb: bool,
    has_intensity: bool,
    k: int,
) -> Result<Collected, ExportErrorModel>
    decreases k,
{
    if k <= 0 {
        Ok(Collected { positions: Seq::empty(), colors: Seq::empty() })
    } else {
        match collected_upto(chunks, has_rgb, has_intensity, k - 1) {
            Err(x) => Err(x),
            Ok(cur) => match chunks[k - 1] {
                Err(x) => Err(x@),
                Ok(c) => if c.payload.positions@.len() == 0 {
                    Ok(cur)
                } else {
                    Ok(
                        Collected {
                            positions: cur.positions + c.payload.positions@,
                            colors: cur.colors + chunk_colors(c, has_rgb, has_intensity),
                        },
                    )
                },
            },
        }
    }
}

proof fn lemma_collected_err(
    chunks: Seq<Result<GrayChunk, ExportError>>,
    has_rgb: bool,
    has_intensity: bool,
    k: int,
    n: int,
)
    requires
        0 <= k <= n,
        collected_upto(chunks, has_rgb, has_intensity, k) is Err,
    ensures
        collected_upto(chunks, has_rgb, has_intensity, n) == collected_upto(chunks, has_rgb, has_intensity, k),
    decreases n - k,
{
    if k < n {
        lemma_collected_err(chunks, has_rgb, has_intensity, k, n - 1);
    }
}

/// The points of a point cloud entity from its chunks (in the order of the
/// asset's chunk records): positions, and colors from RGB or else from
/// intensity, included when the asset has either; none when no chunk has
/// points. Bounds are left to the caller.
pub fn collect_entity_point_cloud(
    has_rgb: bool,
    has_intensity: bool,
    chunks: &Vec<Result<GrayChunk, ExportError>>,
) -> (r: Result<Option<PointsExport>, ExportError>)
    requires
        forall|j: int|
            0 <= j < chunks@.len() ==> (#[trigger] chunks@[j] matches Ok(c) ==> c.gray@.len()
                == c.payload.positions@.len()),
    ensures
        match r {
            Ok(None) => collected_upto(chunks@, has_rgb, has_intensity, chunks@.len() as int) matches Ok(c)
                && c.positions.len() == 0,
            Ok(Some(p)) => collected_upto(chunks@, has_rgb, has_intensity, chunks@.len() as int) == Ok::<
                Collected,
                ExportErrorModel,
            >(Collected { positions: p.positions@, colors: p.colors@ }) && p.positions@.len() > 0
                && p.include_color == (has_rgb || has_intensity) && p.bounds is None,
            Err(x) => collected_upto(chunks@, has_rgb, has_intensity, chunks@.len() as int) == Err::<
                Collected,
                ExportErrorModel,
            >(x@),
        },
{
    let mut positions: Vec<[u32; 3]> = Vec::new();
    let mut colors: Vec<[u8; 3]> = Vec::new();
    let mut j: usize = 0;
    assert(positions@ =~= Seq::<[u32; 3]>::empty() && colors@ =~= Seq::<[u8; 3]>::empty());
    while j < chunks.len()
        invariant
            j <= chunks.len(),
            forall|j: int|
                0 <= j < chunks@.len() ==> (#[trigger] chunks@[j] matches Ok(c) ==> c.gray@.len()
                    == c.payload.positions@.len()),
            collected_upto(chunks@, has_rgb, has_intensity, j as int) == Ok::<Collected, ExportErrorModel>(
                Collected { positions: positions@, colors: colors@ },
            ),
        decreases chunks.len() - j,
    {
        match &chunks[j] {
            Err(x) => {
                proof {
                    lemma_collected_err(chunks@, has_rgb, has_intensity, j + 1, chunks@.len() as int);
                }
                return Err(copy_error(x));
            },
            Ok(c) => {
                let n = c.payload.positions.len();
                if n != 0 {
                    let ghost p0 = positions@;
                    let ghost c0 = colors@;
                    let mut i: usize = 0;
                    while i < n
                        invariant
                            i <= n,
                            n == c.payload.positions@.len(),
                            n == c.gray@.len(),
                            positions@ == p0 + c.payload.positions@.take(i as int),
                            colors@ == c0 + chunk_colors(*c, has_rgb, has_intensity).take(
                                if has_rgb || has_intensity {
                                    i as int
                                } else {
                                    0
                                },
                            ),
                        decreases n - i,
                    {
                        positions.push(c.payload.positions[i]);
                        if has_rgb {
                            let color = if i < c.payload.colors.len() {
                                c.payload.colors[i]
                            } else {
                                [255u8, 255u8, 255u8]
                            };
                            colors.push(color);
                        } else if has_intensity {
                            let g = c.gray[i];
                            colors.push([g, g, g]);
                        }
                        i = i + 1;
                        proof {
                            let cc = chunk_colors(*c, has_rgb, has_intensity);
                            assert(c.payload.positions@.take(i as int) =~= c.payload.positions@.take(i - 1).push(
                                c.payload.positions@[i - 1],
                            ));
                            if has_rgb || has_intensity {
                                assert(cc.take(i as int) =~= cc.take(i - 1).push(cc[i - 1]));
                            }
                        }
                    }
                    proof {
                        let cc = chunk_colors(*c, has_rgb, has_intensity);
                        assert(c.payload.positions@.take(n as int) =~= c.payload.positions@);
                        if has_rgb || has_intensity {
                            assert(cc.take(n as int) =~= cc);
                        } else {
                            assert(cc.take(0) =~= cc);
                        }
                    }
                }
            },
        }
        j = j + 1;
    }
    if positions.len() == 0 {
        return Ok(None);
    }
    Ok(Some(PointsExport { positions, colors, include_color: has_rgb || has_intensity, bounds: None }))
}

/// Every node's children come before it: their indices are below its own.
pub open spec fn children_before(nodes: Seq<NodeRecord>) -> bool {
    forall|i: int, j: int|
        0 <= i < nodes.len() && 0 <= j < nodes[i].children.len() ==> #[trigger] nodes[i].children[j] < i
}

proof fn lemma_content_nodes(e: GltfEntity, st: GlbState)
    ensures
        content_outcome(e, st) matches Ok((_, s)) ==> s.nodes == st.nodes,
{
    match e.content {
        EntityContent::Mesh(Ok(m)) => {
            if let Ok(res) = resolved_spec(m.material@) {
                let sb = mesh_buffers(st, m.mesh, bounds_min(m.bounds), bounds_max(m.bounds));
                assert(sb.nodes == st.nodes);
            }
        },
        _ => {},
    }
}

proof fn lemma_entity_order(e: GltfEntity, st: GlbState)
    requires
        children_before(st.nodes),
    ensures
        entity_node(e, st) matches Ok((o, s)) ==> {
            &&& children_before(s.nodes)
            &&& st.nodes.len() <= s.nodes.len()
            &&& (o matches Some(i) ==> i < s.nodes.len())
        },
    decreases e, e.children@.len() + 1,
{
    lemma_child_order(e, e.children@.len() as int, st);
    if let Ok((kids, st1)) = child_nodes(e, e.children@.len() as int, st) {
        lemma_content_nodes(e, st1);
        if let Ok((mesh, st2)) = content_outcome(e, st1) {
            if !(mesh is None && kids.len() == 0) {
                let rec = NodeRecord { name: e.label@, transform: e.transform, mesh, children: kids };
                let nodes = st2.nodes.push(rec);
                assert forall|i: int, j: int|
                    0 <= i < nodes.len() && 0 <= j < nodes[i].children.len() implies #[trigger] nodes[i].children[j]
                        < i by {
                    if i < st2.nodes.len() {
                        assert(nodes[i] == st2.nodes[i]);
                    } else {
                        assert(kids[j] < st1.nodes.len());
                    }
                }
            }
        }
    }
}

proof fn lemma_child_order(e: GltfEntity, k: int, st: GlbState)
    requires
        children_before(st.nodes),
    ensures
        child_nodes(e, k, st) matches Ok((kids, s)) ==> {
            &&& children_before(s.nodes)
            &&& st.nodes.len() <= s.nodes.len()
            &&& forall|j: int| 0 <= j < kids.len() ==> #[trigger] kids[j] < s.nodes.len()
        },
    decreases e, k,
{
    if 0 < k <= e.children@.len() {
        lemma_child_order(e, k - 1, st);
        if let Ok((kids, st1)) = child_nodes(e, k - 1, st) {
            lemma_entity_order(e.children@[k - 1], st1);
            if let Ok((o, st2)) = entity_node(e.children@[k - 1], st1) {
                if let Some(i) = o {
                    let more = kids.push(i);
                    assert forall|j: int| 0 <= j < more.len() implies #[trigger] more[j] < st2.nodes.len() by {
                        if j < kids.len() {
                            assert(more[j] == kids[j]);
                        }
                    }
                }
            }
        }
    }
}

proof fn lemma_roots_order(roots: Seq<GltfEntity>, k: int)
    ensures
        root_nodes(roots, k) matches Ok((rs, s)) ==> {
            &&& children_before(s.nodes)
            &&& forall|j: int| 0 <= j < rs.len() ==> #[trigger] rs[j] < s.nodes.len()
        },
    decreases k,
{
    if k > 0 {
        lemma_roots_order(roots, k - 1);
        if let Ok((rs, st1)) = root_nodes(roots, k - 1) {
            lemma_entity_order(roots[k - 1], st1);
            if let Ok((o, st2)) = entity_node(roots[k - 1], st1) {
                if let Some(i) = o {
                    let more = rs.push(i);
                    assert forall|j: int| 0 <= j < more.len() implies #[trigger] more[j] < st2.nodes.len() by {
                        if j < rs.len() {
                            assert(more[j] == rs[j]);
                        }
                    }
                }
            }
        }
    }
}

/// The node hierarchy of an exported scene is a forest: every node's
/// children were added before it, and the root indices name added nodes.
pub proof fn law_children_added_first(roots: Seq<GltfEntity>)
    ensures
        glb_outcome(roots) matches Ok((rs, st)) ==> {
            &&& forall|i: int, j: int|
                0 <= i < st.nodes.len() && 0 <= j < st.nodes[i].children.len()
                    ==> #[trigger] st.nodes[i].children[j] < i
            &&& forall|j: int| 0 <= j < rs.len() ==> #[trigger] rs[j] < st.nodes.len()
        },
{
    lemma_roots_order(roots, roots.len() as int);
}

} // verus!
