//! Writing a scene as an ASCII USD (`.usda`) snapshot.
//!
//! The scene arrives as a tree of entities. Transforms, point arrays and
//! colors are floating-point values, so each entity carries their text as
//! the caller formatted it; this module lays out the prims, names them,
//! writes the integer arrays, checks the meshes and counts what it wrote.
use vstd::prelude::*;

use crate::mesh::{mesh_check, MeshAssetData, MeshAssetError};
use crate::text::push_str;
use crate::usd::{
    format_usda_int_array, lemma_free_suffix_exists, sanitized, suffixed, usda_int_array, NameRegistry,
};

verus! {

/// USD export failures.
#[derive(Debug, Clone, PartialEq, Eq)]
pub enum ExportError {
    /// IO failure.
    Io(String),
    /// Scene had no exportable mesh content.
    EmptyScene,
    /// Asset lookup failure.
    Asset(String),
}

/// Mathematical content of an [`ExportError`].
pub enum ExportErrorModel {
    Io(Seq<char>),
    EmptyScene,
    Asset(Seq<char>),
}

impl View for ExportError {
    type V = ExportErrorModel;

    open spec fn view(&self) -> ExportErrorModel {
        match self {
            ExportError::Io(m) => ExportErrorModel::Io(m@),
            ExportError::EmptyScene => ExportErrorModel::EmptyScene,
            ExportError::Asset(m) => ExportErrorModel::Asset(m@),
        }
    }
}

/// A mesh of an entity with the text of its float arrays.
#[derive(Debug)]
pub struct UsdMesh {
    /// The mesh asset.
    pub data: MeshAssetData,
    /// Its positions as a USD `point3f[]` array.
    pub points: String,
    /// Its normals as a USD `normal3f[]` array.
    pub normals: String,
    /// Its material's base color as `(r, g, b)`.
    pub color: String,
}

/// An entity of the scene tree.
#[derive(Debug)]
pub struct UsdEntity {
    /// Its name, or its id when it has none.
    pub label: String,
    /// Its translation as `(x, y, z)`.
    pub translate: String,
    /// Its rotation as `(w, x, y, z)`.
    pub orient: String,
    /// Its scale as `(x, y, z)`.
    pub scale: String,
    /// Its mesh, or the error of loading it, when it references one.
    pub mesh: Option<Result<UsdMesh, ExportError>>,
    /// Its children, in order.
    pub children: Vec<UsdEntity>,
}

/// Number of entities in the tree under `e`, `e` included.
pub open spec fn entity_count(e: UsdEntity) -> nat
    decreases e, e.children@.len() + 1,
{
    1 + children_count(e, e.children@.len() as int)
}

/// Number of entities under the first `k` children of `e`.
pub open spec fn children_count(e: UsdEntity, k: int) -> nat
    decreases e, k,
{
    if k <= 0 || k > e.children@.len() {
        0
    } else {
        children_count(e, k - 1) + entity_count(e.children@[k - 1])
    }
}

/// Names handed out so far, and the prims and meshes written.
pub struct UsdState {
    pub names: Set<Seq<char>>,
    pub prims: nat,
    pub meshes: nat,
}

/// The suffix number of the first candidate name for `base` not in `names`.
pub open spec fn free_suffix(names: Set<Seq<char>>, base: Seq<char>) -> nat {
    choose|k: nat|
        k >= 1 && !names.contains(suffixed(base, k)) && forall|j: nat|
            1 <= j < k ==> #[trigger] names.contains(suffixed(base, j))
}

/// The prim name `label` receives when `names` are taken.
pub open spec fn unique_name(names: Set<Seq<char>>, label: Seq<char>) -> Seq<char> {
    suffixed(sanitized(label), free_suffix(names, sanitized(label)))
}

/// Four spaces per indent level.
pub open spec fn spaces(indent: nat) -> Seq<char> {
    Seq::new(4 * indent, |i: int| ' ')
}

/// `count` threes: the face vertex counts of `count` triangles.
pub open spec fn threes(count: nat) -> Seq<u32> {
    Seq::new(count, |i: int| 3u32)
}

/// The `Mesh` prim of a mesh at `indent`, or the error of its check.
pub open spec fn mesh_block(m: UsdMesh, indent: nat) -> Result<Seq<char>, ExportErrorModel> {
    let d = m.data;
    match mesh_check(d.positions@.len(), d.normals@.len(), d.uvs@.len(), d.tangents@.len(), d.indices@) {
        Err(msg) => Err(ExportErrorModel::Asset("invalid mesh: "@ + msg)),
        Ok(()) => {
            let pad = spaces(indent);
            let inner = spaces(indent + 1);
            Ok(
                pad + "def Mesh \"Geometry\"\n"@ + pad + "{\n"@ + inner + "point3f[] points = "@
                    + m.points@ + "\n"@ + inner + "int[] faceVertexCounts = "@ + usda_int_array(
                    threes(d.indices@.len() / 3),
                ) + "\n"@ + inner + "int[] faceVertexIndices = "@ + usda_int_array(d.indices@)
                    + "\n"@ + (if d.normals@.len() == d.positions@.len() {
                    inner + "normal3f[] normals = "@ + m.normals@ + "\n"@
                } else {
                    Seq::empty()
                }) + inner + "color3f[] displayColor = ["@ + m.color@ + "]\n"@ + pad + "}\n"@,
            )
        },
    }
}

/// The `Xform` prim of an entity named `name` at `indent`, with its mesh
/// block, if any, and the blocks of its children.
pub open spec fn xform_block(
    e: UsdEntity,
    name: Seq<char>,
    indent: nat,
    mesh: Option<Seq<char>>,
    children: Seq<char>,
) -> Seq<char> {
    let pad = spaces(indent);
    let inner = spaces(indent + 1);
    pad + "def Xform \""@ + name + "\"\n"@ + pad + "{\n"@ + inner + "double3 xformOp:translate = "@
        + e.translate@ + "\n"@ + inner + "quatf xformOp:orient = "@ + e.orient@ + "\n"@ + inner
        + "double3 xformOp:scale = "@ + e.scale@ + "\n"@ + inner
        + "uniform token[] xformOpOrder = [\"xformOp:translate\", \"xformOp:orient\", \"xformOp:scale\"]\n"@
        + (match mesh {
        Some(b) => "\n"@ + b,
        None => Seq::empty(),
    }) + children + pad + "}\n"@
}

/// The mesh block of an entity and the state after it: none without a mesh,
/// the loading error, or the checked block with one more mesh counted.
pub open spec fn entity_mesh(e: UsdEntity, indent: nat, st: UsdState) -> Result<
    (Option<Seq<char>>, UsdState),
    ExportErrorModel,
> {
    match e.mesh {
        None => Ok((None, st)),
        Some(Err(x)) => Err(x@),
        Some(Ok(m)) => match mesh_block(m, indent) {
            Err(x) => Err(x),
            Ok(b) => Ok((Some(b), UsdState { meshes: st.meshes + 1, ..st })),
        },
    }
}

/// The block of entity `e` at `indent` and the state after it: its
/// children first, then its mesh; an entity with neither writes nothing,
/// else it is named (after its children) and counted as a prim.
pub open spec fn entity_block(e: UsdEntity, indent: nat, st: UsdState) -> Result<
    (Option<Seq<char>>, UsdState),
    ExportErrorModel,
>
    decreases e, e.children@.len() + 1,
{
    match children_blocks(e, e.children@.len() as int, indent + 1, st) {
        Err(x) => Err(x),
        Ok((kids, st1)) => match entity_mesh(e, indent + 1, st1) {
            Err(x) => Err(x),
            Ok((mesh, st2)) => if mesh is None && kids.len() == 0 {
                Ok((None, st2))
            } else {
                let name = unique_name(st2.names, e.label@);
                Ok(
                    (
                        Some(xform_block(e, name, indent, mesh, kids)),
                        UsdState { names: st2.names.insert(name), prims: st2.prims + 1, meshes: st2.meshes },
                    ),
                )
            },
        },
    }
}

/// The blocks of the first `k` children of `e` at `indent`, in order.
pub open spec fn children_blocks(e: UsdEntity, k: int, indent: nat, st: UsdState) -> Result<
    (Seq<char>, UsdState),
    ExportErrorModel,
>
    decreases e, k,
{
    if k <= 0 || k > e.children@.len() {
        Ok((Seq::empty(), st))
    } else {
        match children_blocks(e, k - 1, indent, st) {
            Err(x) => Err(x),
            Ok((text, st1)) => match entity_block(e.children@[k - 1], indent, st1) {
                Err(x) => Err(x),
                Ok((None, st2)) => Ok((text, st2)),
                Ok((Some(b), st2)) => Ok((text + b, st2)),
            },
        }
    }
}

/// The blocks of the first `k` root entities, at indent 1.
pub open spec fn root_blocks(roots: Seq<UsdEntity>, k: int) -> Result<(Seq<char>, UsdState), ExportErrorModel>
    decreases k,
{
    if k <= 0 {
        Ok((Seq::empty(), UsdState { names: Set::empty(), prims: 0, meshes: 0 }))
    } else {
        match root_blocks(roots, k - 1) {
            Err(x) => Err(x),
            Ok((text, st1)) => match entity_block(roots[k - 1], 1, st1) {
                Err(x) => Err(x),
                Ok((None, st2)) => Ok((text, st2)),
                Ok((Some(b), st2)) => Ok((text + b, st2)),
            },
        }
    }
}

/// The layer header and the opening of the `Scene` root prim.
pub open spec fn usda_header() -> Seq<char> {
    "#usda 1.0\n"@ + "(\n"@ + "    defaultPrim = \"Scene\"\n"@
        + "    doc = \"Create3D mesh snapshot export\"\n"@ + "    metersPerUnit = 1\n"@
        + "    upAxis = \"Y\"\n"@ + ")\n\n"@ + "def Xform \"Scene\"\n"@ + "{\n"@
}

/// The `.usda` text for the root entities with the prim and mesh counts,
/// or the first error; a scene without meshes is empty.
pub open spec fn usda_outcome(roots: Seq<UsdEntity>) -> Result<(Seq<char>, nat, nat), ExportErrorModel> {
    match root_blocks(roots, roots.len() as int) {
        Err(x) => Err(x),
        Ok((text, st)) => if st.meshes == 0 {
            Err(ExportErrorModel::EmptyScene)
        } else {
            Ok((usda_header() + text + "}\n"@, st.prims, st.meshes))
        },
    }
}

/// Number of entities in the trees of the first `k` roots.
pub open spec fn forest_count(roots: Seq<UsdEntity>, k: int) -> nat
    decreases k,
{
    if k <= 0 {
        0
    } else {
        forest_count(roots, k - 1) + entity_count(roots[k - 1])
    }
}

proof fn lemma_unique_name(names: Set<Seq<char>>, label: Seq<char>, k: nat)
    requires
        k >= 1,
        !names.contains(suffixed(sanitized(label), k)),
        forall|j: nat| 1 <= j < k ==> #[trigger] names.contains(suffixed(sanitized(label), j)),
    ensures
        unique_name(names, label) == suffixed(sanitized(label), k),
{
    let b = sanitized(label);
    let f = free_suffix(names, b);
    assert(f >= 1 && !names.contains(suffixed(b, f)) && forall|j: nat|
        1 <= j < f ==> #[trigger] names.contains(suffixed(b, j)));
    if f < k {
        assert(names.contains(suffixed(b, f)));
    }
    if k < f {
        assert(names.contains(suffixed(b, k)));
    }
}

/// The prim name for `label`, recorded in `registry`.
fn prim_name(registry: &mut NameRegistry, label: String) -> (r: String)
    requires
        old(registry).names().len() + 3 < usize::MAX,
    ensures
        r@ == unique_name(old(registry).names(), label@),
        !old(registry).names().contains(r@),
        final(registry).names() == old(registry).names().insert(r@),
{
    let ghost l = label@;
    let r = registry.unique(label);
    proof {
        let k = choose|k: nat|
            k >= 1 && r@ == suffixed(sanitized(l), k) && forall|j: nat|
                1 <= j < k ==> #[trigger] old(registry).names().contains(suffixed(sanitized(l), j));
        lemma_unique_name(old(registry).names(), l, k);
    }
    r
}

/// `indent` levels of four spaces.
fn pad_text(indent: usize) -> (r: String)
    ensures
        r@ == spaces(indent as nat),
{
    let mut r = String::new();
    let mut i: usize = 0;
    while i < indent
        invariant
            i <= indent,
            r@ == spaces(i as nat),
        decreases indent - i,
    {
        push_str(&mut r, "    ");
        i = i + 1;
        proof {
            reveal_strlit("    ");
        }
        assert(r@ =~= spaces(i as nat));
    }
    r
}

fn copy_error(e: &ExportError) -> (r: ExportError)
    ensures
        r@ == e@,
{
    match e {
        ExportError::Io(m) => ExportError::Io(m.clone()),
        ExportError::EmptyScene => ExportError::EmptyScene,
        ExportError::Asset(m) => ExportError::Asset(m.clone()),
    }
}

/// The `Mesh` prim of a mesh at `indent`, after checking the mesh.
fn format_mesh_block(m: &UsdMesh, indent: usize) -> (r: Result<String, ExportError>)
    requires
        indent + 1 < usize::MAX,
    ensures
        match r {
            Ok(b) => mesh_block(*m, indent as nat) == Ok::<Seq<char>, ExportErrorModel>(b@),
            Err(x) => mesh_block(*m, indent as nat) == Err::<Seq<char>, ExportErrorModel>(x@),
        },
{
    match m.data.validate() {
        Ok(()) => {},
        Err(e) => {
            let msg = match e {
                MeshAssetError::Invalid(msg) => msg,
                MeshAssetError::Serialization(msg) => msg,
            };
            let mut text = "invalid mesh: ".to_owned();
            push_str(&mut text, msg.as_str());
            return Err(ExportError::Asset(text));
        },
    }
    let pad = pad_text(indent);
    let inner = pad_text(indent + 1);
    let triangle_count = m.data.indices.len() / 3;
    let mut counts: Vec<u32> = Vec::new();
    let mut i: usize = 0;
    while i < triangle_count
        invariant
            i <= triangle_count,
            counts@ == threes(i as nat),
        decreases triangle_count - i,
    {
        counts.push(3);
        i = i + 1;
        assert(counts@ =~= threes(i as nat));
    }
    let face_counts = format_usda_int_array(counts.as_slice());
    let indices = format_usda_int_array(m.data.indices.as_slice());
    let mut b = pad.clone();
    push_str(&mut b, "def Mesh \"Geometry\"\n");
    push_str(&mut b, pad.as_str());
    push_str(&mut b, "{\n");
    push_str(&mut b, inner.as_str());
    push_str(&mut b, "point3f[] points = ");
    push_str(&mut b, m.points.as_str());
    push_str(&mut b, "\n");
    push_str(&mut b, inner.as_str());
    push_str(&mut b, "int[] faceVertexCounts = ");
    push_str(&mut b, face_counts.as_str());
    push_str(&mut b, "\n");
    push_str(&mut b, inner.as_str());
    push_str(&mut b, "int[] faceVertexIndices = ");
    push_str(&mut b, indices.as_str());
    push_str(&mut b, "\n");
    let ghost before_normals = b@;
    if m.data.normals.len() == m.data.positions.len() {
        push_str(&mut b, inner.as_str());
        push_str(&mut b, "normal3f[] normals = ");
        push_str(&mut b, m.normals.as_str());
        push_str(&mut b, "\n");
    }
    let ghost after_normals = b@;
    push_str(&mut b, inner.as_str());
    push_str(&mut b, "color3f[] displayColor = [");
    push_str(&mut b, m.color.as_str());
    push_str(&mut b, "]\n");
    push_str(&mut b, pad.as_str());
    push_str(&mut b, "}\n");
    proof {
        assert(after_normals == before_normals + (if m.data.normals@.len() == m.data.positions@.len() {
            inner@ + "normal3f[] normals = "@ + m.normals@ + "\n"@
        } else {
            Seq::<char>::empty()
        }));
    }
    Ok(b)
}

pub open spec fn usd_state(names: NameRegistry, prims: usize, meshes: usize) -> UsdState {
    UsdState { names: names.names(), prims: prims as nat, meshes: meshes as nat }
}

pub open spec fn opt_text(o: Option<String>) -> Option<Seq<char>> {
    match o {
        Some(s) => Some(s@),
        None => None,
    }
}

proof fn lemma_children_count_mono(e: UsdEntity, i: int, j: int)
    requires
        0 <= i <= j <= e.children@.len(),
    ensures
        children_count(e, i) <= children_count(e, j),
    decreases j - i,
{
    if i < j {
        lemma_children_count_mono(e, i, j - 1);
    }
}

proof fn lemma_children_err_stays(e: UsdEntity, k: int, n: int, indent: nat, st: UsdState)
    requires
        0 <= k <= n <= e.children@.len(),
        children_blocks(e, k, indent, st) is Err,
    ensures
        children_blocks(e, n, indent, st) == children_blocks(e, k, indent, st),
    decreases n - k,
{
    if k < n {
        lemma_children_err_stays(e, k, n - 1, indent, st);
    }
}

/// Writes the blocks of the children of `e` at `indent`, in order.
fn export_children(
    e: &UsdEntity,
    indent: usize,
    names: &mut NameRegistry,
    prims: &mut usize,
    meshes: &mut usize,
) -> (r: Result<String, ExportError>)
    requires
        old(names).names().len() + children_count(*e, e.children@.len() as int) + 3 < usize::MAX,
        *old(prims) + children_count(*e, e.children@.len() as int) < usize::MAX,
        *old(meshes) + children_count(*e, e.children@.len() as int) < usize::MAX,
        indent + children_count(*e, e.children@.len() as int) + 1 < usize::MAX,
    ensures
        match r {
            Ok(kids) => {
                &&& children_blocks(
                    *e,
                    e.children@.len() as int,
                    indent as nat,
                    usd_state(*old(names), *old(prims), *old(meshes)),
                ) == Ok::<(Seq<char>, UsdState), ExportErrorModel>(
                    (kids@, usd_state(*final(names), *final(prims), *final(meshes))),
                )
                &&& final(names).names().len() <= old(names).names().len() + children_count(
                    *e,
                    e.children@.len() as int,
                )
                &&& *final(prims) <= *old(prims) + children_count(*e, e.children@.len() as int)
                &&& *final(meshes) <= *old(meshes) + children_count(*e, e.children@.len() as int)
            },
            Err(x) => children_blocks(
                *e,
                e.children@.len() as int,
                indent as nat,
                usd_state(*old(names), *old(prims), *old(meshes)),
            ) == Err::<(Seq<char>, UsdState), ExportErrorModel>(x@),
        },
    decreases e, 0int,
{
    let ghost st0 = usd_state(*names, *prims, *meshes);
    let ghost n0 = names.names().len();
    let ghost p0 = *prims as nat;
    let ghost m0 = *meshes as nat;
    let ghost total = children_count(*e, e.children@.len() as int);
    let mut kids = String::new();
    let mut i: usize = 0;
    while i < e.children.len()
        invariant
            i <= e.children.len(),
            total == children_count(*e, e.children@.len() as int),
            st0 == usd_state(*old(names), *old(prims), *old(meshes)),
            n0 == old(names).names().len(),
            p0 == *old(prims) as nat,
            m0 == *old(meshes) as nat,
            n0 + total + 3 < usize::MAX,
            p0 + total < usize::MAX,
            m0 + total < usize::MAX,
            indent + total + 1 < usize::MAX,
            children_blocks(*e, i as int, indent as nat, st0) == Ok::<
                (Seq<char>, UsdState),
                ExportErrorModel,
            >((kids@, usd_state(*names, *prims, *meshes))),
            names.names().len() <= n0 + children_count(*e, i as int),
            *prims <= p0 + children_count(*e, i as int),
            *meshes <= m0 + children_count(*e, i as int),
        decreases e.children.len() - i,
    {
        proof {
            lemma_children_count_mono(*e, i + 1, e.children@.len() as int);
        }
        let ghost text0 = kids@;
        let ghost before = usd_state(*names, *prims, *meshes);
        let child = &e.children[i];
        let out = export_entity_tree(child, indent, names, prims, meshes);
        proof {
            assert(children_blocks(*e, i + 1, indent as nat, st0) == match entity_block(
                e.children@[i as int],
                indent as nat,
                before,
            ) {
                Err(x) => Err(x),
                Ok((None, st2)) => Ok((text0, st2)),
                Ok((Some(b), st2)) => Ok((text0 + b, st2)),
            });
        }
        match out {
            Err(x) => {
                proof {
                    lemma_children_err_stays(*e, i + 1, e.children@.len() as int, indent as nat, st0);
                }
                return Err(x);
            },
            Ok(None) => {},
            Ok(Some(b)) => {
                push_str(&mut kids, b.as_str());
            },
        }
        i = i + 1;
    }
    Ok(kids)
}

/// The mesh block of `e` at `indent`, counting the mesh.
fn export_entity_mesh(e: &UsdEntity, indent: usize, meshes: &mut usize) -> (r: Result<
    Option<String>,
    ExportError,
>)
    requires
        *old(meshes) + 1 < usize::MAX,
        indent + 1 < usize::MAX,
    ensures
        forall|names: Set<Seq<char>>, prims: nat|
            #![trigger entity_mesh(*e, indent as nat, UsdState { names, prims, meshes: *old(meshes) as nat })]
            entity_mesh(*e, indent as nat, UsdState { names, prims, meshes: *old(meshes) as nat }) == match r {
                Ok(o) => Ok::<(Option<Seq<char>>, UsdState), ExportErrorModel>(
                    (opt_text(o), UsdState { names, prims, meshes: *final(meshes) as nat }),
                ),
                Err(x) => Err::<(Option<Seq<char>>, UsdState), ExportErrorModel>(x@),
            },
        *final(meshes) <= *old(meshes) + 1,
{
    match &e.mesh {
        None => Ok(None),
        Some(Err(x)) => Err(copy_error(x)),
        Some(Ok(m)) => {
            *meshes = *meshes + 1;
            match format_mesh_block(m, indent) {
                Err(x) => Err(x),
                Ok(b) => Ok(Some(b)),
            }
        },
    }
}

/// The `Xform` prim of `e` named `name` at `indent`.
fn format_xform_block(
    e: &UsdEntity,
    name: &String,
    indent: usize,
    mesh: &Option<String>,
    kids: &String,
) -> (r: String)
    requires
        indent + 1 < usize::MAX,
    ensures
        r@ == xform_block(*e, name@, indent as nat, opt_text(*mesh), kids@),
{
    let pad = pad_text(indent);
    let inner = pad_text(indent + 1);
    let mut block = pad.clone();
    push_str(&mut block, "def Xform \"");
    push_str(&mut block, name.as_str());
    push_str(&mut block, "\"\n");
    push_str(&mut block, pad.as_str());
    push_str(&mut block, "{\n");
    push_str(&mut block, inner.as_str());
    push_str(&mut block, "double3 xformOp:translate = ");
    push_str(&mut block, e.translate.as_str());
    push_str(&mut block, "\n");
    push_str(&mut block, inner.as_str());
    push_str(&mut block, "quatf xformOp:orient = ");
    push_str(&mut block, e.orient.as_str());
    push_str(&mut block, "\n");
    push_str(&mut block, inner.as_str());
    push_str(&mut block, "double3 xformOp:scale = ");
    push_str(&mut block, e.scale.as_str());
    push_str(&mut block, "\n");
    push_str(&mut block, inner.as_str());
    push_str(
        &mut block,
        "uniform token[] xformOpOrder = [\"xformOp:translate\", \"xformOp:orient\", \"xformOp:scale\"]\n",
    );
    let ghost before_mesh = block@;
    match mesh {
        Some(b) => {
            push_str(&mut block, "\n");
            push_str(&mut block, b.as_str());
        },
        None => {},
    }
    let ghost after_mesh = block@;
    push_str(&mut block, kids.as_str());
    push_str(&mut block, pad.as_str());
    push_str(&mut block, "}\n");
    proof {
        assert(after_mesh == before_mesh + (match opt_text(*mesh) {
            Some(b) => "\n"@ + b,
            None => Seq::<char>::empty(),
        }));
    }
    block
}

/// Writes the block of entity `e` at `indent`, naming its prim in `names`
/// and counting prims and meshes.
fn export_entity_tree(
    e: &UsdEntity,
    indent: usize,
    names: &mut NameRegistry,
    prims: &mut usize,
    meshes: &mut usize,
) -> (r: Result<Option<String>, ExportError>)
    requires
        old(names).names().len() + entity_count(*e) + 3 < usize::MAX,
        *old(prims) + entity_count(*e) < usize::MAX,
        *old(meshes) + entity_count(*e) < usize::MAX,
        indent + entity_count(*e) + 1 < usize::MAX,
    ensures
        match r {
            Ok(o) => {
                &&& entity_block(*e, indent as nat, usd_state(*old(names), *old(prims), *old(meshes)))
                    == Ok::<(Option<Seq<char>>, UsdState), ExportErrorModel>(
                    (opt_text(o), usd_state(*final(names), *final(prims), *final(meshes))),
                )
                &&& final(names).names().len() <= old(names).names().len() + entity_count(*e)
                &&& *final(prims) <= *old(prims) + entity_count(*e)
                &&& *final(meshes) <= *old(meshes) + entity_count(*e)
            },
            Err(x) => entity_block(*e, indent as nat, usd_state(*old(names), *old(prims), *old(meshes)))
                == Err::<(Option<Seq<char>>, UsdState), ExportErrorModel>(x@),
        },
    decreases e, 1int,
{
    let ghost st0 = usd_state(*names, *prims, *meshes);
    let kids = match export_children(e, indent + 1, names, prims, meshes) {
        Ok(k) => k,
        Err(x) => {
            return Err(x);
        },
    };
    let ghost st1 = usd_state(*names, *prims, *meshes);
    let mesh_text = match export_entity_mesh(e, indent + 1, meshes) {
        Ok(m) => m,
        Err(x) => {
            assert(entity_mesh(*e, (indent + 1) as nat, st1) == Err::<
                (Option<Seq<char>>, UsdState),
                ExportErrorModel,
            >(x@));
            return Err(x);
        },
    };
    assert(entity_mesh(*e, (indent + 1) as nat, st1) == Ok::<
        (Option<Seq<char>>, UsdState),
        ExportErrorModel,
    >((opt_text(mesh_text), usd_state(*names, *prims, *meshes))));
    if mesh_text.is_none() && kids.as_str().is_empty() {
        return Ok(None);
    }
    proof {
        names.lemma_names_finite();
    }
    let name = prim_name(names, e.label.clone());
    let block = format_xform_block(e, &name, indent, &mesh_text, &kids);
    *prims = *prims + 1;
    proof {
        names.lemma_names_finite();
    }
    Ok(Some(block))
}

proof fn lemma_forest_count_mono(roots: Seq<UsdEntity>, i: int, j: int)
    requires
        0 <= i <= j,
    ensures
        forest_count(roots, i) <= forest_count(roots, j),
    decreases j - i,
{
    if i < j {
        lemma_forest_count_mono(roots, i, j - 1);
    }
}

proof fn lemma_roots_err_stays(roots: Seq<UsdEntity>, k: int, n: int)
    requires
        0 <= k <= n,
        root_blocks(roots, k) is Err,
    ensures
        root_blocks(roots, n) == root_blocks(roots, k),
    decreases n - k,
{
    if k < n {
        lemma_roots_err_stays(roots, k, n - 1);
    }
}

/// A `.usda` snapshot and what it holds.
#[derive(Debug, Clone, PartialEq, Eq)]
pub struct UsdSnapshot {
    /// The layer text.
    pub text: String,
    /// Number of Xform prims written.
    pub prim_count: usize,
    /// Number of Mesh prims written.
    pub mesh_count: usize,
}

/// The `.usda` snapshot of a scene given by its root entities (those
/// without a parent, in scene order): each tree written under the `Scene`
/// root prim; a scene without meshes is refused.
pub fn usda_snapshot(roots: &Vec<UsdEntity>) -> (r: Result<UsdSnapshot, ExportError>)
    requires
        forest_count(roots@, roots@.len() as int) + 4 < usize::MAX,
    ensures
        match r {
            Ok(s) => usda_outcome(roots@) == Ok::<(Seq<char>, nat, nat), ExportErrorModel>(
                (s.text@, s.prim_count as nat, s.mesh_count as nat),
            ),
            Err(x) => usda_outcome(roots@) == Err::<(Seq<char>, nat, nat), ExportErrorModel>(x@),
        },
{
    let mut names = NameRegistry::new();
    let mut prims: usize = 0;
    let mut meshes: usize = 0;
    let mut text = String::new();
    let ghost total = forest_count(roots@, roots@.len() as int);
    proof {
        assert(usd_state(names, prims, meshes) == UsdState {
            names: Set::<Seq<char>>::empty(),
            prims: 0,
            meshes: 0,
        });
    }
    let mut i: usize = 0;
    while i < roots.len()
        invariant
            i <= roots.len(),
            total == forest_count(roots@, roots@.len() as int),
            total + 4 < usize::MAX,
            root_blocks(roots@, i as int) == Ok::<(Seq<char>, UsdState), ExportErrorModel>(
                (text@, usd_state(names, prims, meshes)),
            ),
            names.names().len() <= forest_count(roots@, i as int),
            prims <= forest_count(roots@, i as int),
            meshes <= forest_count(roots@, i as int),
        decreases roots.len() - i,
    {
        proof {
            lemma_forest_count_mono(roots@, i + 1, roots@.len() as int);
        }
        let ghost text0 = text@;
        let ghost before = usd_state(names, prims, meshes);
        let out = export_entity_tree(&roots[i], 1, &mut names, &mut prims, &mut meshes);
        match out {
            Err(x) => {
                proof {
                    lemma_roots_err_stays(roots@, i + 1, roots@.len() as int);
                }
                return Err(x);
            },
            Ok(None) => {},
            Ok(Some(b)) => {
                push_str(&mut text, b.as_str());
            },
        }
        i = i + 1;
    }
    if meshes == 0 {
        return Err(ExportError::EmptyScene);
    }
    let mut doc = "#usda 1.0\n".to_owned();
    push_str(&mut doc, "(\n");
    push_str(&mut doc, "    defaultPrim = \"Scene\"\n");
    push_str(&mut doc, "    doc = \"Create3D mesh snapshot export\"\n");
    push_str(&mut doc, "    metersPerUnit = 1\n");
    push_str(&mut doc, "    upAxis = \"Y\"\n");
    push_str(&mut doc, ")\n\n");
    push_str(&mut doc, "def Xform \"Scene\"\n");
    push_str(&mut doc, "{\n");
    push_str(&mut doc, text.as_str());
    push_str(&mut doc, "}\n");
    Ok(UsdSnapshot { text: doc, prim_count: prims, mesh_count: meshes })
}

/// As many distinct names handed out as prims written.
pub open spec fn names_match_prims(st: UsdState) -> bool {
    st.names.finite() && st.names.len() == st.prims
}

proof fn lemma_unique_name_fresh(names: Set<Seq<char>>, label: Seq<char>)
    requires
        names.finite(),
    ensures
        !names.contains(unique_name(names, label)),
{
    lemma_free_suffix_exists(names, sanitized(label));
}

proof fn lemma_entity_names(e: UsdEntity, indent: nat, st: UsdState)
    requires
        names_match_prims(st),
    ensures
        entity_block(e, indent, st) matches Ok((_, st2)) ==> names_match_prims(st2),
    decreases e, e.children@.len() + 1,
{
    lemma_children_names(e, e.children@.len() as int, indent + 1, st);
    if let Ok((kids, st1)) = children_blocks(e, e.children@.len() as int, indent + 1, st) {
        if let Ok((mesh, st2)) = entity_mesh(e, indent + 1, st1) {
            if !(mesh is None && kids.len() == 0) {
                lemma_unique_name_fresh(st2.names, e.label@);
            }
        }
    }
}

proof fn lemma_children_names(e: UsdEntity, k: int, indent: nat, st: UsdState)
    requires
        names_match_prims(st),
    ensures
        children_blocks(e, k, indent, st) matches Ok((_, st2)) ==> names_match_prims(st2),
    decreases e, k,
{
    if 0 < k <= e.children@.len() {
        lemma_children_names(e, k - 1, indent, st);
        if let Ok((_, st1)) = children_blocks(e, k - 1, indent, st) {
            lemma_entity_names(e.children@[k - 1], indent, st1);
        }
    }
}

proof fn lemma_roots_names(roots: Seq<UsdEntity>, k: int)
    ensures
        root_blocks(roots, k) matches Ok((_, st)) ==> names_match_prims(st),
    decreases k,
{
    if k > 0 {
        lemma_roots_names(roots, k - 1);
        if let Ok((_, st1)) = root_blocks(roots, k - 1) {
            lemma_entity_names(roots[k - 1], 1, st1);
        }
    } else {
        assert(Set::<Seq<char>>::empty().len() == 0);
    }
}

/// Every prim of a snapshot gets a name no other prim of it has: the names
/// handed out are as many as the prims written.
pub proof fn law_prim_names_distinct(roots: Seq<UsdEntity>)
    ensures
        root_blocks(roots, roots.len() as int) matches Ok((_, st)) ==> st.names.finite()
            && st.names.len() == st.prims,
{
    lemma_roots_names(roots, roots.len() as int);
}

} // verus!