//! Collada (`.dae`) triangle mesh import.
//!
//! The document is read as XML nodes (see [`crate::xml`]). Float arrays are
//! given as the results of parsing each whitespace-separated token of a
//! node's text as an `f32`: its bits, or the parser's error text. Decoding
//! those numbers happens around these functions.
use vstd::prelude::*;
use vstd::utf8::{decode_utf8, valid_utf8};

use crate::mesh::MeshAssetData;
use crate::text::{
    chars_of, decimal, decimal_string, parse_usize_chars, parse_usize_spec, push_str, split_ws,
    str_eq, string_from_chars, tokens, trim_char_start, trim_start_char, usize_error_message,
    usize_error_text, utf8_error_text, utf8_text, views_of, lemma_take_push,
};
use crate::xml::{
    attribute, attribute_value, children_named, find_first_by_local_name, find_named,
    first_child_named, matching_child, matching_children, node_views, parse_xml, xml_document,
    XmlNode, XmlNodeView,
};

verus! {

/// Collada import error.
#[derive(Debug, Clone, PartialEq, Eq)]
pub enum ImportError {
    /// IO failure.
    Io(String),
    /// Invalid Collada payload.
    Invalid(String),
}

/// Result of parsing one float token: the `f32` bits, or the error text.
pub type FloatToken = Result<u32, String>;

pub open spec fn float_token_views(v: Seq<FloatToken>) -> Seq<Result<u32, Seq<char>>> {
    v.map_values(
        |r: FloatToken|
            match r {
                Ok(b) => Ok(b),
                Err(e) => Err(e@),
            },
    )
}

pub open spec fn float_table_views(v: Seq<Vec<FloatToken>>) -> Seq<Seq<Result<u32, Seq<char>>>> {
    v.map_values(|row: Vec<FloatToken>| float_token_views(row@))
}

/// Steps `0..n` applied in turn from `init`, stopping at the first error.
pub open spec fn fold_upto<S>(step: spec_fn(S, int) -> Result<S, Seq<char>>, init: S, n: int) -> Result<
    S,
    Seq<char>,
>
    decreases n,
{
    if n <= 0 {
        Ok(init)
    } else {
        match fold_upto(step, init, n - 1) {
            Err(e) => Err(e),
            Ok(acc) => step(acc, n - 1),
        }
    }
}

/// Once a fold has failed, further steps keep its error.
pub proof fn lemma_fold_err<S>(step: spec_fn(S, int) -> Result<S, Seq<char>>, init: S, n: int, m: int)
    requires
        0 <= n <= m,
        fold_upto(step, init, n) is Err,
    ensures
        fold_upto(step, init, m) == fold_upto(step, init, n),
    decreases m - n,
{
    if m > n {
        lemma_fold_err(step, init, n, m - 1);
    }
}

/// Whether `floats` holds, for every node with text, one parse result per
/// whitespace-separated token of that text.
pub open spec fn float_table_fits(
    nodes: Seq<XmlNodeView>,
    floats: Seq<Seq<Result<u32, Seq<char>>>>,
) -> bool {
    &&& floats.len() == nodes.len()
    &&& forall|i: int|
        0 <= i < nodes.len() && (#[trigger] nodes[i]).text is Some ==> floats[i].len() == tokens(
            nodes[i].text->0,
        ).len()
}

/// The values of the first `n` float tokens, or the message for the first
/// token that is not a float.
pub open spec fn floats_upto(
    results: Seq<Result<u32, Seq<char>>>,
    toks: Seq<Seq<char>>,
    n: int,
) -> Result<Seq<u32>, Seq<char>> {
    fold_upto(
        |acc: Seq<u32>, i: int|
            match results[i] {
                Ok(b) => Ok(acc.push(b)),
                Err(m) => Err("invalid collada float `"@ + toks[i] + "`: "@ + m),
            },
        Seq::empty(),
        n,
    )
}

/// A `<source>` with its float data and accessor layout.
pub struct SourceModel {
    pub id: Seq<char>,
    pub floats: Seq<u32>,
    pub stride: nat,
    pub offset: nat,
}

/// A `usize` attribute of node `i`, or `default` when absent or unparsable.
pub open spec fn usize_attribute(
    nodes: Seq<XmlNodeView>,
    i: Option<usize>,
    name: Seq<char>,
    default: nat,
) -> nat {
    match i {
        None => default,
        Some(i) => match attribute(nodes[i as int], name) {
            None => default,
            Some(v) => match parse_usize_spec(v) {
                Some(n) => n,
                None => default,
            },
        },
    }
}

/// What `<source>` node `s` contributes: nothing when it lacks an id, a
/// float array or its text; else its data, or the message for a bad float.
pub open spec fn source_entry(
    nodes: Seq<XmlNodeView>,
    floats: Seq<Seq<Result<u32, Seq<char>>>>,
    s: int,
) -> Option<Result<SourceModel, Seq<char>>> {
    match attribute(nodes[s], "id"@) {
        None => None,
        Some(id) => match find_named(nodes, s, "float_array"@) {
            None => None,
            Some(fa) => match nodes[fa as int].text {
                None => None,
                Some(t) => match floats_upto(floats[fa as int], tokens(t), tokens(t).len() as int) {
                    Err(e) => Some(Err(e)),
                    Ok(values) => {
                        let accessor = find_named(nodes, s, "accessor"@);
                        Some(
                            Ok(
                                SourceModel {
                                    id,
                                    floats: values,
                                    stride: usize_attribute(nodes, accessor, "stride"@, 1),
                                    offset: usize_attribute(nodes, accessor, "offset"@, 0),
                                },
                            ),
                        )
                    },
                },
            },
        },
    }
}

/// The sources among the first `n` `<source>` nodes `srcs`, in order.
pub open spec fn sources_upto(
    nodes: Seq<XmlNodeView>,
    floats: Seq<Seq<Result<u32, Seq<char>>>>,
    srcs: Seq<usize>,
    n: int,
) -> Result<Seq<SourceModel>, Seq<char>> {
    fold_upto(
        |acc: Seq<SourceModel>, i: int|
            match source_entry(nodes, floats, srcs[i] as int) {
                None => Ok(acc),
                Some(Err(e)) => Err(e),
                Some(Ok(s)) => Ok(acc.push(s)),
            },
        Seq::empty(),
        n,
    )
}

/// The sources of `<mesh>` node `m`.
pub open spec fn mesh_sources(
    nodes: Seq<XmlNodeView>,
    floats: Seq<Seq<Result<u32, Seq<char>>>>,
    m: int,
) -> Result<Seq<SourceModel>, Seq<char>> {
    let srcs = children_named(nodes, m, "source"@);
    sources_upto(nodes, floats, srcs, srcs.len() as int)
}

/// The source with id `id` among the first `n`; a later one with the same id
/// replaces an earlier one.
pub open spec fn lookup_upto(srcs: Seq<SourceModel>, id: Seq<char>, n: int) -> Option<SourceModel>
    decreases n,
{
    if n <= 0 {
        None
    } else if srcs[n - 1].id == id {
        Some(srcs[n - 1])
    } else {
        lookup_upto(srcs, id, n - 1)
    }
}

pub open spec fn lookup(srcs: Seq<SourceModel>, id: Seq<char>) -> Option<SourceModel> {
    lookup_upto(srcs, id, srcs.len() as int)
}

/// The sources a mesh's `<vertices>` element names.
pub struct VertexModel {
    pub position: Seq<char>,
    pub normal: Option<Seq<char>>,
    pub texcoord: Option<Seq<char>>,
}

/// Position, normal and texcoord sources named by the first `n` `<input>`
/// nodes `ins` of `<vertices>`; a later input of the same semantic wins.
pub open spec fn vertex_inputs_upto(nodes: Seq<XmlNodeView>, ins: Seq<usize>, n: int) -> (
    Option<Seq<char>>,
    Option<Seq<char>>,
    Option<Seq<char>>,
)
    decreases n,
{
    if n <= 0 {
        (None, None, None)
    } else {
        let prev = vertex_inputs_upto(nodes, ins, n - 1);
        let node = nodes[ins[n - 1] as int];
        match (attribute(node, "semantic"@), attribute(node, "source"@)) {
            (Some(sem), Some(src)) => {
                let id = trim_char_start(src, '#');
                if sem == "POSITION"@ {
                    (Some(id), prev.1, prev.2)
                } else if sem == "NORMAL"@ {
                    (prev.0, Some(id), prev.2)
                } else if sem == "TEXCOORD"@ {
                    (prev.0, prev.1, Some(id))
                } else {
                    prev
                }
            },
            _ => prev,
        }
    }
}

/// The `<vertices>` inputs of `<mesh>` node `m`, checked against its sources.
pub open spec fn mesh_vertices(nodes: Seq<XmlNodeView>, m: int, srcs: Seq<SourceModel>) -> Result<
    VertexModel,
    Seq<char>,
> {
    match first_child_named(nodes, m, "vertices"@) {
        None => Err("collada mesh missing vertices element"@),
        Some(v) => {
            let ins = children_named(nodes, v as int, "input"@);
            let st = vertex_inputs_upto(nodes, ins, ins.len() as int);
            match st.0 {
                None => Err("collada vertices missing POSITION input"@),
                Some(p) => if lookup(srcs, p) is None {
                    Err("collada position source `"@ + p + "` not found"@)
                } else {
                    Ok(VertexModel { position: p, normal: st.1, texcoord: st.2 })
                },
            }
        },
    }
}

/// An `<input>` of a primitive.
pub struct InputModel {
    pub semantic: Seq<char>,
    pub source: Seq<char>,
    pub offset: nat,
}

/// The inputs among the first `n` `<input>` nodes `ins` of a primitive that
/// have both a semantic and a source.
pub open spec fn prim_inputs_upto(nodes: Seq<XmlNodeView>, ins: Seq<usize>, n: int) -> Seq<InputModel>
    decreases n,
{
    if n <= 0 {
        Seq::empty()
    } else {
        let prev = prim_inputs_upto(nodes, ins, n - 1);
        let i = ins[n - 1];
        match (attribute(nodes[i as int], "semantic"@), attribute(nodes[i as int], "source"@)) {
            (Some(sem), Some(src)) => prev.push(
                InputModel {
                    semantic: sem,
                    source: src,
                    offset: usize_attribute(nodes, Some(i), "offset"@, 0),
                },
            ),
            _ => prev,
        }
    }
}

/// The largest offset among the first `n` inputs (0 when there are none).
pub open spec fn max_offset(ins: Seq<InputModel>, n: int) -> nat
    decreases n,
{
    if n <= 0 {
        0
    } else {
        let m = max_offset(ins, n - 1);
        if ins[n - 1].offset > m {
            ins[n - 1].offset
        } else {
            m
        }
    }
}

/// The values of the first `n` integer tokens, or the message for the first
/// token that is not a `usize`.
pub open spec fn usizes_upto(toks: Seq<Seq<char>>, n: int) -> Result<Seq<nat>, Seq<char>> {
    fold_upto(
        |acc: Seq<nat>, i: int|
            match parse_usize_spec(toks[i]) {
                Some(x) => Ok(acc.push(x)),
                None => Err(
                    "invalid collada integer `"@ + toks[i] + "`: "@ + usize_error_text(toks[i]),
                ),
            },
        Seq::empty(),
        n,
    )
}

pub open spec fn usizes_of(t: Seq<char>) -> Result<Seq<nat>, Seq<char>> {
    usizes_upto(tokens(t), tokens(t).len() as int)
}

/// The index data of primitive `p` for tuples of `stride` indices.
pub open spec fn index_data(nodes: Seq<XmlNodeView>, p: int, stride: nat) -> Result<
    Seq<nat>,
    Seq<char>,
> {
    match first_child_named(nodes, p, "p"@) {
        None => Err("collada primitive missing index data"@),
        Some(q) => match nodes[q as int].text {
            None => Err("collada primitive index data is empty"@),
            Some(t) => match usizes_of(t) {
                Err(e) => Err(e),
                Ok(v) => if v.len() % stride != 0 {
                    Err("collada primitive index count is not a multiple of input stride"@)
                } else {
                    Ok(v)
                },
            },
        },
    }
}

/// The vertex count of each face of primitive `p`: its `<vcount>` list, or
/// `count` triangles.
pub open spec fn face_counts(nodes: Seq<XmlNodeView>, p: int) -> Result<Seq<nat>, Seq<char>> {
    match first_child_named(nodes, p, "vcount"@) {
        Some(vc) => match nodes[vc as int].text {
            None => Err("collada polylist vcount is empty"@),
            Some(t) => usizes_of(t),
        },
        None => Ok(Seq::new(usize_attribute(nodes, Some(p as usize), "count"@, 0), |i: int| 3nat)),
    }
}

/// `n` floats of source `id` for vertex `index`.
pub open spec fn source_floats(srcs: Seq<SourceModel>, index: nat, id: Seq<char>, n: nat) -> Result<
    Seq<u32>,
    Seq<char>,
> {
    match lookup(srcs, id) {
        None => Err("collada source `"@ + id + "` not found"@),
        Some(s) => {
            let start = s.offset + index * s.stride;
            if start + n > s.floats.len() {
                Err("collada source `"@ + id + "` index "@ + decimal(index) + " out of range"@)
            } else {
                Ok(s.floats.subrange(start as int, (start + n) as int))
            }
        },
    }
}

/// Position, normal and texcoord of one corner after the first `n` inputs.
pub struct CornerState {
    pub position: Option<Seq<u32>>,
    pub normal: Option<Seq<u32>>,
    pub uv: Option<Seq<u32>>,
}

/// The source an input reads when the vertices element names none.
pub open spec fn input_source(named: Option<Seq<char>>, input: InputModel) -> Seq<char> {
    match named {
        Some(n) => n,
        None => trim_char_start(input.source, '#'),
    }
}

/// How input `input` changes a corner read from index tuple `tuple`.
pub open spec fn corner_input(
    srcs: Seq<SourceModel>,
    vm: VertexModel,
    input: InputModel,
    tuple: Seq<nat>,
    st: CornerState,
) -> Result<CornerState, Seq<char>> {
    if input.offset >= tuple.len() {
        Err("collada index tuple too short"@)
    } else {
        let index = tuple[input.offset as int];
        if input.semantic == "VERTEX"@ {
            match source_floats(srcs, index, vm.position, 3) {
                Err(e) => Err(e),
                Ok(v) => Ok(CornerState { position: Some(v), ..st }),
            }
        } else if input.semantic == "NORMAL"@ {
            match source_floats(srcs, index, input_source(vm.normal, input), 3) {
                Err(e) => Err(e),
                Ok(v) => Ok(CornerState { normal: Some(v), ..st }),
            }
        } else if input.semantic == "TEXCOORD"@ {
            match source_floats(srcs, index, input_source(vm.texcoord, input), 2) {
                Err(e) => Err(e),
                Ok(v) => Ok(CornerState { uv: Some(v), ..st }),
            }
        } else {
            Ok(st)
        }
    }
}

/// One corner read through the first `n` inputs from index tuple `tuple`.
pub open spec fn corner_upto(
    srcs: Seq<SourceModel>,
    vm: VertexModel,
    ins: Seq<InputModel>,
    tuple: Seq<nat>,
    n: int,
) -> Result<CornerState, Seq<char>> {
    fold_upto(
        |st: CornerState, i: int| corner_input(srcs, vm, ins[i], tuple, st),
        CornerState { position: None, normal: None, uv: None },
        n,
    )
}

/// One corner read through all inputs; it must have a position.
pub open spec fn corner_of(
    srcs: Seq<SourceModel>,
    vm: VertexModel,
    ins: Seq<InputModel>,
    tuple: Seq<nat>,
) -> Result<CornerState, Seq<char>> {
    match corner_upto(srcs, vm, ins, tuple, ins.len() as int) {
        Err(e) => Err(e),
        Ok(st) => if st.position is None {
            Err("collada primitive missing POSITION indices"@)
        } else {
            Ok(st)
        },
    }
}

/// Mesh data gathered so far.
pub struct MeshOut {
    pub positions: Seq<Seq<u32>>,
    pub normals: Seq<Seq<u32>>,
    pub uvs: Seq<Seq<u32>>,
    pub indices: Seq<u32>,
}

/// `out` with one more corner: a new vertex and the index that refers to it.
pub open spec fn push_corner(out: MeshOut, c: CornerState) -> MeshOut {
    MeshOut {
        positions: out.positions.push(c.position->0),
        normals: match c.normal {
            Some(n) => out.normals.push(n),
            None => out.normals,
        },
        uvs: match c.uv {
            Some(u) => out.uvs.push(u),
            None => out.uvs,
        },
        indices: out.indices.push(out.positions.len() as u32),
    }
}

/// The face of `stride`-wide index tuples at `cursor`, corner by corner.
pub open spec fn face_corners(
    srcs: Seq<SourceModel>,
    vm: VertexModel,
    ins: Seq<InputModel>,
    indices: Seq<nat>,
    stride: nat,
    cursor: nat,
    out: MeshOut,
) -> Result<MeshOut, Seq<char>> {
    let c = cursor as int;
    let w = stride as int;
    let t0 = indices.subrange(c, c + w);
    let t1 = indices.subrange(c + w, c + 2 * w);
    let t2 = indices.subrange(c + 2 * w, c + 3 * w);
    match corner_of(srcs, vm, ins, t0) {
        Err(e) => Err(e),
        Ok(c0) => match corner_of(srcs, vm, ins, t1) {
            Err(e) => Err(e),
            Ok(c1) => match corner_of(srcs, vm, ins, t2) {
                Err(e) => Err(e),
                Ok(c2) => Ok(push_corner(push_corner(push_corner(out, c0), c1), c2)),
            },
        },
    }
}

/// How face `i` changes the mesh.
pub open spec fn face_step(
    srcs: Seq<SourceModel>,
    vm: VertexModel,
    ins: Seq<InputModel>,
    indices: Seq<nat>,
    stride: nat,
    counts: Seq<nat>,
    acc: MeshOut,
    i: int,
) -> Result<MeshOut, Seq<char>> {
    let cursor = (3 * stride * i) as nat;
    if counts[i] != 3 {
        Err("collada polylist face with "@ + decimal(counts[i]) + " vertices is not supported in v0"@)
    } else if cursor + 3 * stride > indices.len() {
        Err("collada primitive index data truncated"@)
    } else {
        face_corners(srcs, vm, ins, indices, stride, cursor, acc)
    }
}

/// The mesh after the first `n` faces of a primitive.
pub open spec fn faces_upto(
    srcs: Seq<SourceModel>,
    vm: VertexModel,
    ins: Seq<InputModel>,
    indices: Seq<nat>,
    stride: nat,
    counts: Seq<nat>,
    out: MeshOut,
    n: int,
) -> Result<MeshOut, Seq<char>> {
    fold_upto(
        |acc: MeshOut, i: int| face_step(srcs, vm, ins, indices, stride, counts, acc, i),
        out,
        n,
    )
}

/// The mesh after appending primitive `p`.
pub open spec fn primitive_step(
    nodes: Seq<XmlNodeView>,
    srcs: Seq<SourceModel>,
    vm: VertexModel,
    p: int,
    out: MeshOut,
) -> Result<MeshOut, Seq<char>> {
    let in_nodes = children_named(nodes, p, "input"@);
    let ins = prim_inputs_upto(nodes, in_nodes, in_nodes.len() as int);
    if ins.len() == 0 {
        Err("collada primitive has no inputs"@)
    } else {
        let stride = max_offset(ins, ins.len() as int) + 1;
        match index_data(nodes, p, stride) {
            Err(e) => Err(e),
            Ok(indices) => match face_counts(nodes, p) {
                Err(e) => Err(e),
                Ok(counts) => faces_upto(
                    srcs,
                    vm,
                    ins,
                    indices,
                    stride,
                    counts,
                    out,
                    counts.len() as int,
                ),
            },
        }
    }
}

/// The mesh after the first `n` primitives `prims`.
pub open spec fn primitives_upto(
    nodes: Seq<XmlNodeView>,
    srcs: Seq<SourceModel>,
    vm: VertexModel,
    prims: Seq<usize>,
    out: MeshOut,
    n: int,
) -> Result<MeshOut, Seq<char>> {
    fold_upto(
        |acc: MeshOut, i: int| primitive_step(nodes, srcs, vm, prims[i] as int, acc),
        out,
        n,
    )
}

/// The triangle lists of `<mesh>` node `m`, then its polylists.
pub open spec fn mesh_primitives(nodes: Seq<XmlNodeView>, m: int) -> Seq<usize> {
    children_named(nodes, m, "triangles"@) + children_named(nodes, m, "polylist"@)
}

/// The mesh after appending `<mesh>` node `m`.
pub open spec fn mesh_step(
    nodes: Seq<XmlNodeView>,
    floats: Seq<Seq<Result<u32, Seq<char>>>>,
    m: int,
    out: MeshOut,
) -> Result<MeshOut, Seq<char>> {
    match mesh_sources(nodes, floats, m) {
        Err(e) => Err(e),
        Ok(srcs) => match mesh_vertices(nodes, m, srcs) {
            Err(e) => Err(e),
            Ok(vm) => {
                let prims = mesh_primitives(nodes, m);
                primitives_upto(nodes, srcs, vm, prims, out, prims.len() as int)
            },
        },
    }
}

/// The `<mesh>` of each of the first `n` `<geometry>` nodes that has one.
pub open spec fn geometry_meshes_upto(nodes: Seq<XmlNodeView>, geoms: Seq<usize>, n: int) -> Seq<
    usize,
>
    decreases n,
{
    if n <= 0 {
        Seq::empty()
    } else {
        let prev = geometry_meshes_upto(nodes, geoms, n - 1);
        match first_child_named(nodes, geoms[n - 1] as int, "mesh"@) {
            Some(m) => prev.push(m),
            None => prev,
        }
    }
}

pub open spec fn library_meshes(nodes: Seq<XmlNodeView>, lib: int) -> Seq<usize> {
    let geoms = children_named(nodes, lib, "geometry"@);
    geometry_meshes_upto(nodes, geoms, geoms.len() as int)
}

/// The meshes of the first `n` `<library_geometries>` nodes, in order.
pub open spec fn libraries_meshes_upto(nodes: Seq<XmlNodeView>, libs: Seq<usize>, n: int) -> Seq<
    usize,
>
    decreases n,
{
    if n <= 0 {
        Seq::empty()
    } else {
        libraries_meshes_upto(nodes, libs, n - 1) + library_meshes(nodes, libs[n - 1] as int)
    }
}

/// The mesh after the first `n` `<mesh>` nodes `meshes`.
pub open spec fn meshes_upto(
    nodes: Seq<XmlNodeView>,
    floats: Seq<Seq<Result<u32, Seq<char>>>>,
    meshes: Seq<usize>,
    n: int,
) -> Result<MeshOut, Seq<char>> {
    fold_upto(
        |acc: MeshOut, i: int| mesh_step(nodes, floats, meshes[i] as int, acc),
        MeshOut { positions: Seq::empty(), normals: Seq::empty(), uvs: Seq::empty(), indices: Seq::empty() },
        n,
    )
}

/// Whether node `k` is an element whose parent is `p`.
pub open spec fn element_child(nodes: Seq<XmlNodeView>, p: int, k: int) -> bool {
    0 <= p && nodes[k].element && nodes[k].parent == Some(p as usize)
}

/// The first element child of node `p` at or after `k`.
pub open spec fn first_element_child_from(nodes: Seq<XmlNodeView>, p: int, k: int) -> Option<usize>
    decreases nodes.len() - k,
{
    if k < 0 || k >= nodes.len() {
        None
    } else if element_child(nodes, p, k) {
        Some(k as usize)
    } else {
        first_element_child_from(nodes, p, k + 1)
    }
}

/// All `<mesh>` nodes the importer reads, in order, under the `COLLADA` element.
pub open spec fn collada_meshes(nodes: Seq<XmlNodeView>, collada: int) -> Seq<usize> {
    let libs = children_named(nodes, collada, "library_geometries"@);
    libraries_meshes_upto(nodes, libs, libs.len() as int)
}

/// Outcome of importing a parsed Collada document: the gathered mesh, or the
/// message of the first problem.
pub open spec fn collada_outcome(
    nodes: Seq<XmlNodeView>,
    floats: Seq<Seq<Result<u32, Seq<char>>>>,
) -> Result<MeshOut, Seq<char>> {
    let root = first_element_child_from(nodes, 0, 0);
    let collada = match root {
        Some(r) => find_named(nodes, r as int, "COLLADA"@),
        None => None,
    };
    match collada {
        None => Err("missing COLLADA root element"@),
        Some(c) => {
            let meshes = collada_meshes(nodes, c as int);
            match meshes_upto(nodes, floats, meshes, meshes.len() as int) {
                Err(e) => Err(e),
                Ok(out) => if out.positions.len() == 0 {
                    Err("collada contains no triangle mesh geometry"@)
                } else {
                    Ok(out)
                },
            }
        },
    }
}

pub open spec fn mesh_out_of(m: MeshAssetData) -> MeshOut {
    MeshOut {
        positions: m.positions@.map_values(|p: [u32; 3]| p@),
        normals: m.normals@.map_values(|p: [u32; 3]| p@),
        uvs: m.uvs@.map_values(|p: [u32; 2]| p@),
        indices: m.indices@,
    }
}


pub open spec fn result_view<T, V>(r: Result<T, String>, f: spec_fn(T) -> V) -> Result<V, Seq<char>> {
    match r {
        Ok(v) => Ok(f(v)),
        Err(e) => Err(e@),
    }
}

fn invalid_float(token: &Vec<char>, message: &String) -> (r: String)
    ensures
        r@ == "invalid collada float `"@ + token@ + "`: "@ + message@,
{
    let mut r = "invalid collada float `".to_owned();
    let t = string_from_chars(token);
    push_str(&mut r, t.as_str());
    push_str(&mut r, "`: ");
    push_str(&mut r, message.as_str());
    r
}

/// The values of float tokens `toks`, given their parse results.
#[verifier::loop_isolation(false)]
fn float_values(results: &Vec<FloatToken>, toks: &Vec<Vec<char>>) -> (r: Result<Vec<u32>, String>)
    requires
        results.len() == toks.len(),
    ensures
        result_view(r, |v: Vec<u32>| v@) == floats_upto(
            float_token_views(results@),
            views_of(toks@),
            toks.len() as int,
        ),
{
    let ghost rv = float_token_views(results@);
    let ghost tv = views_of(toks@);
    let ghost step = |acc: Seq<u32>, i: int|
        match rv[i] {
            Ok(b) => Ok(acc.push(b)),
            Err(m) => Err("invalid collada float `"@ + tv[i] + "`: "@ + m),
        };
    assert(floats_upto(rv, tv, toks.len() as int) == fold_upto(step, Seq::empty(), toks.len() as int));
    let mut v: Vec<u32> = Vec::new();
    let mut i: usize = 0;
    while i < results.len()
        invariant
            i <= results.len(),
            results.len() == toks.len(),
            rv == float_token_views(results@),
            tv == views_of(toks@),
            fold_upto(step, Seq::empty(), i as int) == Ok::<Seq<u32>, Seq<char>>(v@),
        decreases results.len() - i,
    {
        assert(fold_upto(step, Seq::empty(), i + 1) == step(v@, i as int));
        match &results[i] {
            Ok(b) => {
                assert(rv[i as int] == Ok::<u32, Seq<char>>(*b));
                v.push(*b);
            },
            Err(m) => {
                let e = invalid_float(&toks[i], m);
                assert(rv[i as int] == Err::<u32, Seq<char>>(m@));
                assert(tv[i as int] == toks@[i as int]@);
                assert(fold_upto(step, Seq::empty(), i + 1) == Err::<Seq<u32>, Seq<char>>(e@));
                proof {
                    lemma_fold_err(step, Seq::empty(), i + 1, toks.len() as int);
                }
                return Err(e);
            },
        }
        i += 1;
    }
    Ok(v)
}

/// A `<source>` with its float data and accessor layout.
struct SourceData {
    id: String,
    floats: Vec<u32>,
    stride: usize,
    offset: usize,
}

spec fn source_model(s: SourceData) -> SourceModel {
    SourceModel { id: s.id@, floats: s.floats@, stride: s.stride as nat, offset: s.offset as nat }
}

spec fn source_models(v: Seq<SourceData>) -> Seq<SourceModel> {
    v.map_values(|s: SourceData| source_model(s))
}

fn usize_attr(nodes: &Vec<XmlNode>, i: Option<usize>, name: &str, default: usize) -> (r: usize)
    requires
        i matches Some(k) ==> k < nodes.len(),
    ensures
        r as nat == usize_attribute(node_views(nodes@), i, name@, default as nat),
{
    match i {
        None => default,
        Some(k) => match attribute_value(nodes, k, name) {
            None => default,
            Some(v) => {
                let c = chars_of(v.as_str());
                match parse_usize_chars(&c) {
                    Some(n) => n,
                    None => default,
                }
            },
        },
    }
}

fn source_entry_exec(
    nodes: &Vec<XmlNode>,
    floats: &Vec<Vec<FloatToken>>,
    s: usize,
) -> (r: Option<Result<SourceData, String>>)
    requires
        s < nodes.len(),
        float_table_fits(node_views(nodes@), float_table_views(floats@)),
    ensures
        match r {
            None => source_entry(node_views(nodes@), float_table_views(floats@), s as int) is None,
            Some(x) => source_entry(node_views(nodes@), float_table_views(floats@), s as int) == Some(
                result_view(x, |d: SourceData| source_model(d)),
            ),
        },
{
    let ghost nv = node_views(nodes@);
    let node_count = nodes.len();
    let id = match attribute_value(nodes, s, "id") {
        Some(id) => id,
        None => {
            return None;
        },
    };
    let fa = match find_first_by_local_name(nodes, s, "float_array") {
        Some(fa) => fa,
        None => {
            return None;
        },
    };
    proof {
        crate::xml::lemma_find_named_bound(nv, s as int, "float_array"@, s as int);
    }
    assert(nv[fa as int] == nodes@[fa as int]@);
    let text = match &nodes[fa].text {
        Some(t) => t,
        None => {
            return None;
        },
    };
    let c = chars_of(text.as_str());
    let toks = split_ws(&c);
    assert(nv[fa as int].text is Some);
    assert(float_table_views(floats@)[fa as int] == float_token_views(floats@[fa as int]@));
    let values = match float_values(&floats[fa], &toks) {
        Ok(v) => v,
        Err(e) => {
            return Some(Err(e));
        },
    };
    let accessor = find_first_by_local_name(nodes, s, "accessor");
    proof {
        crate::xml::lemma_find_named_bound(nv, s as int, "accessor"@, s as int);
    }
    let stride = usize_attr(nodes, accessor, "stride", 1);
    let offset = usize_attr(nodes, accessor, "offset", 0);
    Some(Ok(SourceData { id, floats: values, stride, offset }))
}

/// The sources of `<mesh>` node `m`, in order.
#[verifier::loop_isolation(false)]
fn parse_sources(nodes: &Vec<XmlNode>, floats: &Vec<Vec<FloatToken>>, m: usize) -> (r: Result<
    Vec<SourceData>,
    String,
>)
    requires
        float_table_fits(node_views(nodes@), float_table_views(floats@)),
    ensures
        result_view(r, |v: Vec<SourceData>| source_models(v@)) == mesh_sources(
            node_views(nodes@),
            float_table_views(floats@),
            m as int,
        ),
{
    let ghost nv = node_views(nodes@);
    let node_count = nodes.len();
    let ghost fv = float_table_views(floats@);
    let srcs = matching_children(nodes, m, "source");
    let ghost step = |acc: Seq<SourceModel>, i: int|
        match source_entry(nv, fv, srcs@[i] as int) {
            None => Ok(acc),
            Some(Err(e)) => Err(e),
            Some(Ok(s)) => Ok(acc.push(s)),
        };
    assert(mesh_sources(nv, fv, m as int) == fold_upto(step, Seq::empty(), srcs.len() as int));
    let mut out: Vec<SourceData> = Vec::new();
    assert(source_models(out@) =~= Seq::<SourceModel>::empty());
    let mut i: usize = 0;
    while i < srcs.len()
        invariant
            i <= srcs.len(),
            nv == node_views(nodes@),
            nv.len() == node_count,
            fv == float_table_views(floats@),
            float_table_fits(nv, fv),
            srcs@ == children_named(nv, m as int, "source"@),
            fold_upto(step, Seq::empty(), i as int) == Ok::<Seq<SourceModel>, Seq<char>>(
                source_models(out@),
            ),
        decreases srcs.len() - i,
    {
        assert(fold_upto(step, Seq::empty(), i + 1) == step(source_models(out@), i as int));
        proof {
            crate::xml::lemma_children_bound(nv, m as int, "source"@, i as int);
        }
        match source_entry_exec(nodes, floats, srcs[i]) {
            None => {},
            Some(Err(e)) => {
                assert(fold_upto(step, Seq::empty(), i + 1) == Err::<Seq<SourceModel>, Seq<char>>(e@));
                proof {
                    lemma_fold_err(step, Seq::empty(), i + 1, srcs.len() as int);
                }
                return Err(e);
            },
            Some(Ok(d)) => {
                let ghost before = out@;
                out.push(d);
                assert(source_models(out@) =~= source_models(before).push(source_model(d)));
            },
        }
        i += 1;
    }
    Ok(out)
}

/// Index of the source with id `id` (the last one, when several share it).
fn lookup_source(srcs: &Vec<SourceData>, id: &str) -> (r: Option<usize>)
    ensures
        match r {
            Some(k) => k < srcs.len() && lookup(source_models(srcs@), id@) == Some(
                source_model(srcs@[k as int]),
            ),
            None => lookup(source_models(srcs@), id@) is None,
        },
{
    let ghost sv = source_models(srcs@);
    let mut n = srcs.len();
    while n > 0
        invariant
            n <= srcs.len(),
            sv == source_models(srcs@),
            lookup(sv, id@) == lookup_upto(sv, id@, n as int),
        decreases n,
    {
        if str_eq(srcs[n - 1].id.as_str(), id) {
            return Some(n - 1);
        }
        n -= 1;
    }
    None
}


/// The sources a mesh's `<vertices>` element names.
struct VertexData {
    position: String,
    normal: Option<String>,
    texcoord: Option<String>,
}

spec fn opt_string(o: Option<String>) -> Option<Seq<char>> {
    match o {
        Some(s) => Some(s@),
        None => None,
    }
}

spec fn vertex_model(v: VertexData) -> VertexModel {
    VertexModel { position: v.position@, normal: opt_string(v.normal), texcoord: opt_string(v.texcoord) }
}

fn source_id(reference: &String) -> (r: String)
    ensures
        r@ == trim_char_start(reference@, '#'),
{
    let c = chars_of(reference.as_str());
    let t = trim_start_char(&c, '#');
    string_from_chars(&t)
}

/// The `<vertices>` inputs of `<mesh>` node `m`, checked against its sources.
fn parse_vertices(nodes: &Vec<XmlNode>, m: usize, srcs: &Vec<SourceData>) -> (r: Result<
    VertexData,
    String,
>)
    ensures
        result_view(r, |v: VertexData| vertex_model(v)) == mesh_vertices(
            node_views(nodes@),
            m as int,
            source_models(srcs@),
        ),
{
    let ghost nv = node_views(nodes@);
    let node_count = nodes.len();
    let v = match matching_child(nodes, m, "vertices") {
        Some(v) => v,
        None => {
            return Err("collada mesh missing vertices element".to_owned());
        },
    };
    proof {
        crate::xml::lemma_first_child_bound(nv, m as int, "vertices"@, 0);
    }
    let ins = matching_children(nodes, v, "input");
    let mut position: Option<String> = None;
    let mut normal: Option<String> = None;
    let mut texcoord: Option<String> = None;
    let mut i: usize = 0;
    while i < ins.len()
        invariant
            i <= ins.len(),
            nv == node_views(nodes@),
            nv.len() == node_count,
            ins@ == children_named(nv, v as int, "input"@),
            (opt_string(position), opt_string(normal), opt_string(texcoord)) == vertex_inputs_upto(
                nv,
                ins@,
                i as int,
            ),
        decreases ins.len() - i,
    {
        proof {
            crate::xml::lemma_children_bound(nv, v as int, "input"@, i as int);
        }
        let node = ins[i];
        let sem = attribute_value(nodes, node, "semantic");
        let src = attribute_value(nodes, node, "source");
        match (sem, src) {
            (Some(sem), Some(src)) => {
                let id = source_id(&src);
                if str_eq(sem.as_str(), "POSITION") {
                    position = Some(id);
                } else if str_eq(sem.as_str(), "NORMAL") {
                    normal = Some(id);
                } else if str_eq(sem.as_str(), "TEXCOORD") {
                    texcoord = Some(id);
                }
            },
            _ => {},
        }
        i += 1;
    }
    let position = match position {
        Some(p) => p,
        None => {
            return Err("collada vertices missing POSITION input".to_owned());
        },
    };
    if lookup_source(srcs, position.as_str()).is_none() {
        let mut e = "collada position source `".to_owned();
        push_str(&mut e, position.as_str());
        push_str(&mut e, "` not found");
        return Err(e);
    }
    Ok(VertexData { position, normal, texcoord })
}

/// An `<input>` of a primitive.
struct InputData {
    semantic: String,
    source: String,
    offset: usize,
}

spec fn input_model(i: InputData) -> InputModel {
    InputModel { semantic: i.semantic@, source: i.source@, offset: i.offset as nat }
}

spec fn input_models(v: Seq<InputData>) -> Seq<InputModel> {
    v.map_values(|i: InputData| input_model(i))
}

/// The inputs of primitive `p` that have both a semantic and a source.
fn parse_primitive_inputs(nodes: &Vec<XmlNode>, p: usize) -> (r: Vec<InputData>)
    ensures
        input_models(r@) == prim_inputs_upto(
            node_views(nodes@),
            children_named(node_views(nodes@), p as int, "input"@),
            children_named(node_views(nodes@), p as int, "input"@).len() as int,
        ),
{
    let ghost nv = node_views(nodes@);
    let node_count = nodes.len();
    let ins = matching_children(nodes, p, "input");
    let mut r: Vec<InputData> = Vec::new();
    let mut i: usize = 0;
    assert(input_models(r@) =~= Seq::<InputModel>::empty());
    while i < ins.len()
        invariant
            i <= ins.len(),
            nv == node_views(nodes@),
            nv.len() == node_count,
            ins@ == children_named(nv, p as int, "input"@),
            input_models(r@) == prim_inputs_upto(nv, ins@, i as int),
        decreases ins.len() - i,
    {
        proof {
            crate::xml::lemma_children_bound(nv, p as int, "input"@, i as int);
        }
        let node = ins[i];
        let sem = attribute_value(nodes, node, "semantic");
        let src = attribute_value(nodes, node, "source");
        match (sem, src) {
            (Some(semantic), Some(source)) => {
                let offset = usize_attr(nodes, Some(node), "offset", 0);
                let d = InputData { semantic, source, offset };
                let ghost before = r@;
                r.push(d);
                assert(input_models(r@) =~= input_models(before).push(input_model(d)));
            },
            _ => {},
        }
        i += 1;
    }
    r
}

fn max_input_offset(ins: &Vec<InputData>) -> (r: usize)
    ensures
        r as nat == max_offset(input_models(ins@), ins.len() as int),
{
    let mut m: usize = 0;
    let mut i: usize = 0;
    while i < ins.len()
        invariant
            i <= ins.len(),
            m as nat == max_offset(input_models(ins@), i as int),
        decreases ins.len() - i,
    {
        if ins[i].offset > m {
            m = ins[i].offset;
        }
        i += 1;
    }
    m
}

pub open spec fn usize_views(v: Seq<usize>) -> Seq<nat> {
    v.map_values(|x: usize| x as nat)
}

fn invalid_integer(token: &Vec<char>) -> (r: String)
    ensures
        r@ == "invalid collada integer `"@ + token@ + "`: "@ + usize_error_text(token@),
{
    let mut r = "invalid collada integer `".to_owned();
    let t = string_from_chars(token);
    push_str(&mut r, t.as_str());
    push_str(&mut r, "`: ");
    push_str(&mut r, usize_error_message(token));
    r
}

/// The whitespace-separated `usize` values of `text`, or the message for
/// the first token that is not one.
#[verifier::loop_isolation(false)]
pub fn parse_usizes(text: &str) -> (r: Result<Vec<usize>, String>)
    ensures
        result_view(r, |v: Vec<usize>| usize_views(v@)) == usizes_of(text@),
{
    let c = chars_of(text);
    let toks = split_ws(&c);
    let ghost tv = views_of(toks@);
    let ghost step = |acc: Seq<nat>, i: int|
        match parse_usize_spec(tv[i]) {
            Some(x) => Ok(acc.push(x)),
            None => Err("invalid collada integer `"@ + tv[i] + "`: "@ + usize_error_text(tv[i])),
        };
    assert(usizes_of(text@) == fold_upto(step, Seq::empty(), toks.len() as int));
    let mut v: Vec<usize> = Vec::new();
    let mut i: usize = 0;
    assert(usize_views(v@) =~= Seq::<nat>::empty());
    while i < toks.len()
        invariant
            i <= toks.len(),
            fold_upto(step, Seq::empty(), i as int) == Ok::<Seq<nat>, Seq<char>>(usize_views(v@)),
        decreases toks.len() - i,
    {
        assert(fold_upto(step, Seq::empty(), i + 1) == step(usize_views(v@), i as int));
        assert(tv[i as int] == toks@[i as int]@);
        match parse_usize_chars(&toks[i]) {
            Some(x) => {
                let ghost before = v@;
                v.push(x);
                assert(usize_views(v@) =~= usize_views(before).push(x as nat));
            },
            None => {
                let e = invalid_integer(&toks[i]);
                proof {
                    lemma_fold_err(step, Seq::empty(), i + 1, toks.len() as int);
                }
                return Err(e);
            },
        }
        i += 1;
    }
    Ok(v)
}

/// The index data of primitive `p` for tuples of `stride` indices.
fn parse_index_data(nodes: &Vec<XmlNode>, p: usize, stride: u128) -> (r: Result<Vec<usize>, String>)
    requires
        stride > 0,
    ensures
        result_view(r, |v: Vec<usize>| usize_views(v@)) == index_data(
            node_views(nodes@),
            p as int,
            stride as nat,
        ),
{
    let ghost nv = node_views(nodes@);
    let node_count = nodes.len();
    let q = match matching_child(nodes, p, "p") {
        Some(q) => q,
        None => {
            return Err("collada primitive missing index data".to_owned());
        },
    };
    proof {
        crate::xml::lemma_first_child_bound(nv, p as int, "p"@, 0);
    }
    assert(nv[q as int] == nodes@[q as int]@);
    let text = match &nodes[q].text {
        Some(t) => t,
        None => {
            return Err("collada primitive index data is empty".to_owned());
        },
    };
    let values = match parse_usizes(text.as_str()) {
        Ok(v) => v,
        Err(e) => {
            return Err(e);
        },
    };
    if (values.len() as u128) % stride != 0 {
        return Err("collada primitive index count is not a multiple of input stride".to_owned());
    }
    Ok(values)
}

/// The vertex counts of the faces of a primitive.
enum FaceCounts {
    /// Listed in `<vcount>`.
    Listed(Vec<usize>),
    /// This many triangles.
    Triangles(usize),
}

spec fn face_count_view(f: FaceCounts) -> Seq<nat> {
    match f {
        FaceCounts::Listed(v) => usize_views(v@),
        FaceCounts::Triangles(n) => Seq::new(n as nat, |i: int| 3nat),
    }
}

fn parse_face_counts(nodes: &Vec<XmlNode>, p: usize) -> (r: Result<FaceCounts, String>)
    requires
        p < nodes.len(),
    ensures
        result_view(r, |f: FaceCounts| face_count_view(f)) == face_counts(node_views(nodes@), p as int),
{
    let ghost nv = node_views(nodes@);
    let node_count = nodes.len();
    match matching_child(nodes, p, "vcount") {
        Some(vc) => {
            proof {
                crate::xml::lemma_first_child_bound(nv, p as int, "vcount"@, 0);
            }
            assert(nv[vc as int] == nodes@[vc as int]@);
            match &nodes[vc].text {
                None => Err("collada polylist vcount is empty".to_owned()),
                Some(t) => match parse_usizes(t.as_str()) {
                    Ok(v) => Ok(FaceCounts::Listed(v)),
                    Err(e) => Err(e),
                },
            }
        },
        None => {
            let n = usize_attr(nodes, Some(p), "count", 0);
            Ok(FaceCounts::Triangles(n))
        },
    }
}

fn source_error(prefix: &str, id: &str, suffix: &str) -> (r: String)
    ensures
        r@ == prefix@ + id@ + suffix@,
{
    let mut r = prefix.to_owned();
    push_str(&mut r, id);
    push_str(&mut r, suffix);
    r
}

/// `n` floats of source `id` for vertex `index`.
fn read_source_floats(srcs: &Vec<SourceData>, index: usize, id: &str, n: usize) -> (r: Result<Vec<u32>, String>)
    requires
        n <= 3,
    ensures
        result_view(r, |v: Vec<u32>| v@) == source_floats(source_models(srcs@), index as nat, id@, n as nat),
{
    let k = match lookup_source(srcs, id) {
        Some(k) => k,
        None => {
            return Err(source_error("collada source `", id, "` not found"));
        },
    };
    let s = &srcs[k];
    let ghost sm = source_model(srcs@[k as int]);
    assert(sm.offset == s.offset && sm.stride == s.stride && sm.floats == s.floats@);
    let a = index as u128;
    let b = s.stride as u128;
    assert(a * b <= 0xffff_ffff_ffff_ffff * 0xffff_ffff_ffff_ffff) by (nonlinear_arith)
        requires
            a <= 0xffff_ffff_ffff_ffff,
            b <= 0xffff_ffff_ffff_ffff,
    ;
    let start = s.offset as u128 + a * b;
    if start + n as u128 > s.floats.len() as u128 {
        let mut e = "collada source `".to_owned();
        push_str(&mut e, id);
        push_str(&mut e, "` index ");
        let d = decimal_string(index as u64);
        push_str(&mut e, d.as_str());
        push_str(&mut e, " out of range");
        return Err(e);
    }
    let st = start as usize;
    let mut v: Vec<u32> = Vec::new();
    let mut j: usize = 0;
    while j < n
        invariant
            j <= n,
            st + n <= s.floats.len(),
            v@ == s.floats@.subrange(st as int, st + j),
        decreases n - j,
    {
        v.push(s.floats[st + j]);
        j += 1;
    }
    Ok(v)
}


fn vec3_of(v: &Vec<u32>) -> (r: [u32; 3])
    requires
        v.len() == 3,
    ensures
        r@ == v@,
{
    let r = [v[0], v[1], v[2]];
    assert(r@ =~= v@);
    r
}

fn vec2_of(v: &Vec<u32>) -> (r: [u32; 2])
    requires
        v.len() == 2,
    ensures
        r@ == v@,
{
    let r = [v[0], v[1]];
    assert(r@ =~= v@);
    r
}

/// Three floats of source `id` for vertex `index`.
fn read_vec3(srcs: &Vec<SourceData>, index: usize, id: &str) -> (r: Result<[u32; 3], String>)
    ensures
        result_view(r, |a: [u32; 3]| a@) == source_floats(source_models(srcs@), index as nat, id@, 3),
{
    match read_source_floats(srcs, index, id, 3) {
        Ok(v) => Ok(vec3_of(&v)),
        Err(e) => Err(e),
    }
}

/// Two floats of source `id` for vertex `index`.
fn read_vec2_from_source(srcs: &Vec<SourceData>, index: usize, id: &str) -> (r: Result<[u32; 2], String>)
    ensures
        result_view(r, |a: [u32; 2]| a@) == source_floats(source_models(srcs@), index as nat, id@, 2),
{
    match read_source_floats(srcs, index, id, 2) {
        Ok(v) => Ok(vec2_of(&v)),
        Err(e) => Err(e),
    }
}

/// Position, normal and texcoord of one corner.
struct Corner {
    position: Option<[u32; 3]>,
    normal: Option<[u32; 3]>,
    uv: Option<[u32; 2]>,
}

spec fn opt3(o: Option<[u32; 3]>) -> Option<Seq<u32>> {
    match o {
        Some(a) => Some(a@),
        None => None,
    }
}

spec fn opt2(o: Option<[u32; 2]>) -> Option<Seq<u32>> {
    match o {
        Some(a) => Some(a@),
        None => None,
    }
}

spec fn corner_state(c: Corner) -> CornerState {
    CornerState { position: opt3(c.position), normal: opt3(c.normal), uv: opt2(c.uv) }
}

fn input_source_id(named: &Option<String>, input: &InputData) -> (r: String)
    ensures
        r@ == input_source(opt_string(*named), input_model(*input)),
{
    match named {
        Some(n) => n.clone(),
        None => source_id(&input.source),
    }
}

/// One corner read from the index tuple `indices[base..base + stride]`.
#[verifier::loop_isolation(false)]
fn resolve_corner(
    srcs: &Vec<SourceData>,
    vm: &VertexData,
    ins: &Vec<InputData>,
    indices: &Vec<usize>,
    base: usize,
    stride: usize,
) -> (r: Result<Corner, String>)
    requires
        base + stride <= indices.len(),
    ensures
        result_view(r, |c: Corner| corner_state(c)) == corner_of(
            source_models(srcs@),
            vertex_model(*vm),
            input_models(ins@),
            usize_views(indices@).subrange(base as int, base + stride),
        ),
{
    let ghost sm = source_models(srcs@);
    let ghost vmm = vertex_model(*vm);
    let ghost im = input_models(ins@);
    let ghost tuple = usize_views(indices@).subrange(base as int, base + stride);
    let ghost step = |st: CornerState, i: int| corner_input(sm, vmm, im[i], tuple, st);
    assert(corner_upto(sm, vmm, im, tuple, ins.len() as int) == fold_upto(
        step,
        CornerState { position: None, normal: None, uv: None },
        ins.len() as int,
    ));
    let mut c = Corner { position: None, normal: None, uv: None };
    let mut i: usize = 0;
    while i < ins.len()
        invariant
            i <= ins.len(),
            fold_upto(step, CornerState { position: None, normal: None, uv: None }, i as int) == Ok::<
                CornerState,
                Seq<char>,
            >(corner_state(c)),
        decreases ins.len() - i,
    {
        let ghost st = corner_state(c);
        assert(fold_upto(step, CornerState { position: None, normal: None, uv: None }, i + 1) == step(
            st,
            i as int,
        ));
        let input = &ins[i];
        assert(im[i as int] == input_model(*input));
        if input.offset >= stride {
            proof {
                lemma_fold_err(
                    step,
                    CornerState { position: None, normal: None, uv: None },
                    i + 1,
                    ins.len() as int,
                );
            }
            return Err("collada index tuple too short".to_owned());
        }
        let index = indices[base + input.offset];
        assert(tuple[input.offset as int] == index as nat);
        if str_eq(input.semantic.as_str(), "VERTEX") {
            match read_vec3(srcs, index, vm.position.as_str()) {
                Ok(v) => {
                    c.position = Some(v);
                },
                Err(e) => {
                    proof {
                        lemma_fold_err(
                            step,
                            CornerState { position: None, normal: None, uv: None },
                            i + 1,
                            ins.len() as int,
                        );
                    }
                    return Err(e);
                },
            }
        } else if str_eq(input.semantic.as_str(), "NORMAL") {
            let id = input_source_id(&vm.normal, input);
            match read_vec3(srcs, index, id.as_str()) {
                Ok(v) => {
                    c.normal = Some(v);
                },
                Err(e) => {
                    proof {
                        lemma_fold_err(
                            step,
                            CornerState { position: None, normal: None, uv: None },
                            i + 1,
                            ins.len() as int,
                        );
                    }
                    return Err(e);
                },
            }
        } else if str_eq(input.semantic.as_str(), "TEXCOORD") {
            let id = input_source_id(&vm.texcoord, input);
            match read_vec2_from_source(srcs, index, id.as_str()) {
                Ok(v) => {
                    c.uv = Some(v);
                },
                Err(e) => {
                    proof {
                        lemma_fold_err(
                            step,
                            CornerState { position: None, normal: None, uv: None },
                            i + 1,
                            ins.len() as int,
                        );
                    }
                    return Err(e);
                },
            }
        }
        i += 1;
    }
    if c.position.is_none() {
        return Err("collada primitive missing POSITION indices".to_owned());
    }
    Ok(c)
}

pub open spec fn mesh_result(r: Result<(), String>, after: MeshAssetData) -> Result<MeshOut, Seq<char>> {
    match r {
        Ok(()) => Ok(mesh_out_of(after)),
        Err(e) => Err(e@),
    }
}

fn push_corner_into(out: &mut MeshAssetData, c: Corner)
    requires
        c.position is Some,
    ensures
        mesh_out_of(*final(out)) == push_corner(mesh_out_of(*old(out)), corner_state(c)),
        final(out).version == old(out).version,
        final(out).tangents@ == old(out).tangents@,
{
    let n = out.positions.len();
    let ghost before = mesh_out_of(*out);
    let p = c.position.unwrap();
    out.positions.push(p);
    match c.normal {
        Some(v) => {
            out.normals.push(v);
        },
        None => {},
    }
    match c.uv {
        Some(v) => {
            out.uvs.push(v);
        },
        None => {},
    }
    #[verifier::truncate]
    let idx = n as u32;
    out.indices.push(idx);
    proof {
        let after = mesh_out_of(*out);
        let want = push_corner(before, corner_state(c));
        assert(after.positions =~= want.positions);
        assert(after.normals =~= want.normals);
        assert(after.uvs =~= want.uvs);
        assert(after.indices =~= want.indices);
    }
}


fn face_error(count: usize) -> (r: String)
    ensures
        r@ == "collada polylist face with "@ + decimal(count as nat) + " vertices is not supported in v0"@,
{
    let mut e = "collada polylist face with ".to_owned();
    let d = decimal_string(count as u64);
    push_str(&mut e, d.as_str());
    push_str(&mut e, " vertices is not supported in v0");
    e
}

/// Append the triangles of primitive `p` (a `<triangles>` or `<polylist>`).
#[verifier::loop_isolation(false)]
#[verifier::rlimit(40)]
fn append_primitive(
    nodes: &Vec<XmlNode>,
    srcs: &Vec<SourceData>,
    vm: &VertexData,
    p: usize,
    out: &mut MeshAssetData,
) -> (r: Result<(), String>)
    requires
        p < nodes.len(),
    ensures
        mesh_result(r, *final(out)) == primitive_step(
            node_views(nodes@),
            source_models(srcs@),
            vertex_model(*vm),
            p as int,
            mesh_out_of(*old(out)),
        ),
        final(out).version == old(out).version,
        final(out).tangents@ == old(out).tangents@,
{
    let ghost nv = node_views(nodes@);
    let node_count = nodes.len();
    let ghost sm = source_models(srcs@);
    let ghost vmm = vertex_model(*vm);
    let ghost out0 = mesh_out_of(*out);
    let ins = parse_primitive_inputs(nodes, p);
    let ghost im = input_models(ins@);
    if ins.len() == 0 {
        return Err("collada primitive has no inputs".to_owned());
    }
    let maxo = max_input_offset(&ins);
    let stride: u128 = maxo as u128 + 1;
    let indices = match parse_index_data(nodes, p, stride) {
        Ok(v) => v,
        Err(e) => {
            return Err(e);
        },
    };
    let counts = match parse_face_counts(nodes, p) {
        Ok(c) => c,
        Err(e) => {
            return Err(e);
        },
    };
    let total = match &counts {
        FaceCounts::Listed(v) => v.len(),
        FaceCounts::Triangles(n) => *n,
    };
    let ghost cv = face_count_view(counts);
    let ghost iv = usize_views(indices@);
    let ghost w = stride as nat;
    assert(cv.len() == total);
    let ghost step = |acc: MeshOut, i: int| face_step(sm, vmm, im, iv, w, cv, acc, i);
    assert(primitive_step(nv, sm, vmm, p as int, out0) == fold_upto(step, out0, total as int));
    let mut k: usize = 0;
    let mut cursor: u128 = 0;
    while k < total
        invariant
            k <= total,
            cursor as int == 3 * w * k,
            cursor <= indices.len(),
            fold_upto(step, out0, k as int) == Ok::<MeshOut, Seq<char>>(mesh_out_of(*out)),
            out.version == old(out).version,
            out.tangents@ == old(out).tangents@,
        decreases total - k,
    {
        let ghost acc = mesh_out_of(*out);
        assert(fold_upto(step, out0, k + 1) == step(acc, k as int));
        let c = match &counts {
            FaceCounts::Listed(v) => v[k],
            FaceCounts::Triangles(_) => 3,
        };
        assert(cv[k as int] == c as nat);
        if c != 3 {
            proof {
                lemma_fold_err(step, out0, k + 1, total as int);
            }
            return Err(face_error(c));
        }
        if cursor + 3 * stride > indices.len() as u128 {
            proof {
                lemma_fold_err(step, out0, k + 1, total as int);
            }
            return Err("collada primitive index data truncated".to_owned());
        }
        let base = cursor as usize;
        let st = stride as usize;
        let ghost t0 = iv.subrange(base as int, base + st);
        let c0 = match resolve_corner(srcs, vm, &ins, &indices, base, st) {
            Ok(c) => c,
            Err(e) => {
                proof {
                    lemma_fold_err(step, out0, k + 1, total as int);
                }
                return Err(e);
            },
        };
        let c1 = match resolve_corner(srcs, vm, &ins, &indices, base + st, st) {
            Ok(c) => c,
            Err(e) => {
                proof {
                    lemma_fold_err(step, out0, k + 1, total as int);
                }
                return Err(e);
            },
        };
        let c2 = match resolve_corner(srcs, vm, &ins, &indices, base + 2 * st, st) {
            Ok(c) => c,
            Err(e) => {
                proof {
                    lemma_fold_err(step, out0, k + 1, total as int);
                }
                return Err(e);
            },
        };
        push_corner_into(out, c0);
        push_corner_into(out, c1);
        push_corner_into(out, c2);
        assert(3 * w * (k + 1) == 3 * w * k + 3 * w) by (nonlinear_arith);
        cursor = cursor + 3 * stride;
        k += 1;
    }
    Ok(())
}

/// Append the triangle lists and polylists of `<mesh>` node `m`.
#[verifier::loop_isolation(false)]
fn append_mesh(
    nodes: &Vec<XmlNode>,
    floats: &Vec<Vec<FloatToken>>,
    m: usize,
    out: &mut MeshAssetData,
) -> (r: Result<(), String>)
    requires
        float_table_fits(node_views(nodes@), float_table_views(floats@)),
    ensures
        mesh_result(r, *final(out)) == mesh_step(
            node_views(nodes@),
            float_table_views(floats@),
            m as int,
            mesh_out_of(*old(out)),
        ),
        final(out).version == old(out).version,
        final(out).tangents@ == old(out).tangents@,
{
    let ghost nv = node_views(nodes@);
    let node_count = nodes.len();
    let ghost out0 = mesh_out_of(*out);
    let sources = match parse_sources(nodes, floats, m) {
        Ok(s) => s,
        Err(e) => {
            return Err(e);
        },
    };
    let vertices = match parse_vertices(nodes, m, &sources) {
        Ok(v) => v,
        Err(e) => {
            return Err(e);
        },
    };
    let mut prims = matching_children(nodes, m, "triangles");
    let polys = matching_children(nodes, m, "polylist");
    let mut j: usize = 0;
    let ghost tri = prims@;
    while j < polys.len()
        invariant
            j <= polys.len(),
            prims@ == tri + polys@.take(j as int),
        decreases polys.len() - j,
    {
        prims.push(polys[j]);
        proof {
            lemma_take_push(polys@, j as int);
        }
        j += 1;
    }
    assert(polys@.take(j as int) == polys@);
    assert(prims@ == mesh_primitives(nv, m as int));
    let ghost sm = source_models(sources@);
    let ghost vmm = vertex_model(vertices);
    let ghost step = |acc: MeshOut, i: int| primitive_step(nv, sm, vmm, prims@[i] as int, acc);
    assert(mesh_step(nv, float_table_views(floats@), m as int, out0) == fold_upto(
        step,
        out0,
        prims.len() as int,
    ));
    let mut i: usize = 0;
    while i < prims.len()
        invariant
            i <= prims.len(),
            fold_upto(step, out0, i as int) == Ok::<MeshOut, Seq<char>>(mesh_out_of(*out)),
            out.version == old(out).version,
            out.tangents@ == old(out).tangents@,
        decreases prims.len() - i,
    {
        assert(fold_upto(step, out0, i + 1) == step(mesh_out_of(*out), i as int));
        proof {
            let t = children_named(nv, m as int, "triangles"@);
            if i < t.len() {
                crate::xml::lemma_children_bound(nv, m as int, "triangles"@, i as int);
            } else {
                crate::xml::lemma_children_bound(nv, m as int, "polylist"@, i - t.len());
            }
        }
        match append_primitive(nodes, &sources, &vertices, prims[i], out) {
            Ok(()) => {},
            Err(e) => {
                proof {
                    lemma_fold_err(step, out0, i + 1, prims.len() as int);
                }
                return Err(e);
            },
        }
        i += 1;
    }
    Ok(())
}


/// The `<mesh>` nodes under the `COLLADA` element `collada`, in the order
/// they are imported.
fn collect_meshes(nodes: &Vec<XmlNode>, collada: usize) -> (r: Vec<usize>)
    ensures
        r@ == collada_meshes(node_views(nodes@), collada as int),
{
    let ghost nv = node_views(nodes@);
    let node_count = nodes.len();
    let libs = matching_children(nodes, collada, "library_geometries");
    let mut r: Vec<usize> = Vec::new();
    let mut i: usize = 0;
    while i < libs.len()
        invariant
            i <= libs.len(),
            nv == node_views(nodes@),
            nv.len() == node_count,
            libs@ == children_named(nv, collada as int, "library_geometries"@),
            r@ == libraries_meshes_upto(nv, libs@, i as int),
        decreases libs.len() - i,
    {
        let geoms = matching_children(nodes, libs[i], "geometry");
        let ghost prefix = r@;
        let mut j: usize = 0;
        while j < geoms.len()
            invariant
                j <= geoms.len(),
                nv == node_views(nodes@),
            nv.len() == node_count,
                geoms@ == children_named(nv, libs@[i as int] as int, "geometry"@),
                r@ == prefix + geometry_meshes_upto(nv, geoms@, j as int),
            decreases geoms.len() - j,
        {
            match matching_child(nodes, geoms[j], "mesh") {
                Some(m) => {
                    r.push(m);
                },
                None => {},
            }
            j += 1;
        }
        i += 1;
    }
    r
}

/// The first element child of node `p`.
fn first_element_child(nodes: &Vec<XmlNode>, p: usize) -> (r: Option<usize>)
    ensures
        r == first_element_child_from(node_views(nodes@), p as int, 0),
{
    let ghost nv = node_views(nodes@);
    let node_count = nodes.len();
    let mut k: usize = 0;
    while k < nodes.len()
        invariant
            k <= nodes.len(),
            nv == node_views(nodes@),
            nv.len() == node_count,
            first_element_child_from(nv, p as int, 0) == first_element_child_from(nv, p as int, k as int),
        decreases nodes.len() - k,
    {
        assert(nv[k as int] == nodes@[k as int]@);
        if nodes[k].element && nodes[k].parent == Some(p) {
            return Some(k);
        }
        k += 1;
    }
    None
}

proof fn lemma_first_element_bound(nodes: Seq<XmlNodeView>, p: int, k: int)
    requires
        nodes.len() <= usize::MAX,
    ensures
        first_element_child_from(nodes, p, k) matches Some(j) ==> k <= j < nodes.len(),
    decreases nodes.len() - k,
{
    if 0 <= k < nodes.len() && !element_child(nodes, p, k) {
        lemma_first_element_bound(nodes, p, k + 1);
    }
}

/// Append the `<mesh>` nodes `meshes` in order.
#[verifier::loop_isolation(false)]
fn append_meshes(
    nodes: &Vec<XmlNode>,
    floats: &Vec<Vec<FloatToken>>,
    meshes: &Vec<usize>,
    out: &mut MeshAssetData,
) -> (r: Result<(), String>)
    requires
        float_table_fits(node_views(nodes@), float_table_views(floats@)),
    ensures
        mesh_result(r, *final(out)) == fold_upto(
            |acc: MeshOut, i: int|
                mesh_step(node_views(nodes@), float_table_views(floats@), meshes@[i] as int, acc),
            mesh_out_of(*old(out)),
            meshes.len() as int,
        ),
        final(out).version == old(out).version,
        final(out).tangents@ == old(out).tangents@,
{
    let ghost nv = node_views(nodes@);
    let ghost fv = float_table_views(floats@);
    let ghost out0 = mesh_out_of(*out);
    let ghost step = |acc: MeshOut, i: int| mesh_step(nv, fv, meshes@[i] as int, acc);
    let mut i: usize = 0;
    while i < meshes.len()
        invariant
            i <= meshes.len(),
            fold_upto(step, out0, i as int) == Ok::<MeshOut, Seq<char>>(mesh_out_of(*out)),
            out.version == old(out).version,
            out.tangents@ == old(out).tangents@,
        decreases meshes.len() - i,
    {
        assert(fold_upto(step, out0, i + 1) == step(mesh_out_of(*out), i as int));
        match append_mesh(nodes, floats, meshes[i], out) {
            Ok(()) => {},
            Err(e) => {
                proof {
                    lemma_fold_err(step, out0, i + 1, meshes.len() as int);
                }
                return Err(e);
            },
        }
        i += 1;
    }
    Ok(())
}

/// Import the triangle meshes of a parsed Collada document.
///
/// `floats[i]` holds, for node `i` with text, the result of parsing each
/// whitespace-separated token of that text as an `f32`.
pub fn import_collada_nodes(nodes: &Vec<XmlNode>, floats: &Vec<Vec<FloatToken>>) -> (r: Result<
    MeshAssetData,
    ImportError,
>)
    requires
        float_table_fits(node_views(nodes@), float_table_views(floats@)),
    ensures
        match r {
            Ok(mesh) => {
                &&& collada_outcome(node_views(nodes@), float_table_views(floats@)) == Ok::<
                    MeshOut,
                    Seq<char>,
                >(mesh_out_of(mesh))
                &&& mesh.version == 1
                &&& mesh.tangents@.len() == 0
            },
            Err(ImportError::Invalid(e)) => collada_outcome(
                node_views(nodes@),
                float_table_views(floats@),
            ) == Err::<MeshOut, Seq<char>>(e@),
            Err(ImportError::Io(_)) => false,
        },
{
    let ghost nv = node_views(nodes@);
    let node_count = nodes.len();
    let ghost fv = float_table_views(floats@);
    let root = first_element_child(nodes, 0);
    proof {
        lemma_first_element_bound(nv, 0, 0);
    }
    let collada = match root {
        Some(r) => find_first_by_local_name(nodes, r, "COLLADA"),
        None => None,
    };
    let collada = match collada {
        Some(c) => c,
        None => {
            return Err(ImportError::Invalid("missing COLLADA root element".to_owned()));
        },
    };
    let meshes = collect_meshes(nodes, collada);
    let mut out = MeshAssetData {
        version: 1,
        positions: Vec::new(),
        normals: Vec::new(),
        uvs: Vec::new(),
        tangents: Vec::new(),
        indices: Vec::new(),
    };
    let ghost out0 = mesh_out_of(out);
    assert(out0.positions =~= Seq::empty());
    assert(out0.normals =~= Seq::empty());
    assert(out0.uvs =~= Seq::empty());
    assert(out0.indices =~= Seq::empty());
    match append_meshes(nodes, floats, &meshes, &mut out) {
        Ok(()) => {},
        Err(e) => {
            return Err(ImportError::Invalid(e));
        },
    }
    if out.positions.len() == 0 {
        return Err(ImportError::Invalid("collada contains no triangle mesh geometry".to_owned()));
    }
    Ok(out)
}

/// Outcome of reading Collada bytes as an XML document.
pub open spec fn document_outcome(bytes: Seq<u8>) -> Result<Seq<XmlNodeView>, Seq<char>> {
    if !valid_utf8(bytes) {
        Err("collada is not valid UTF-8: "@ + utf8_error_text(bytes))
    } else {
        match xml_document(decode_utf8(bytes)) {
            Ok(nodes) => Ok(nodes),
            Err(e) => Err("collada xml parse error: "@ + e),
        }
    }
}

/// Read Collada bytes as UTF-8 text and parse it as an XML document.
pub fn collada_document(bytes: &[u8]) -> (r: Result<Vec<XmlNode>, ImportError>)
    ensures
        match r {
            Ok(nodes) => document_outcome(bytes@) == Ok::<Seq<XmlNodeView>, Seq<char>>(
                node_views(nodes@),
            ),
            Err(ImportError::Invalid(e)) => document_outcome(bytes@) == Err::<
                Seq<XmlNodeView>,
                Seq<char>,
            >(e@),
            Err(ImportError::Io(_)) => false,
        },
{
    let text = match utf8_text(bytes) {
        Ok(t) => t,
        Err(e) => {
            let mut m = "collada is not valid UTF-8: ".to_owned();
            push_str(&mut m, e.as_str());
            return Err(ImportError::Invalid(m));
        },
    };
    match parse_xml(text.as_str()) {
        Ok(nodes) => Ok(nodes),
        Err(e) => {
            let mut m = "collada xml parse error: ".to_owned();
            push_str(&mut m, e.as_str());
            Err(ImportError::Invalid(m))
        },
    }
}


/// Whether every vertex of `out` is referenced once, in order: index `k` is
/// `k` (as a `u32`), one index per position.
pub open spec fn indexed_in_order(out: MeshOut) -> bool {
    &&& out.indices.len() == out.positions.len()
    &&& forall|k: int| 0 <= k < out.indices.len() ==> #[trigger] out.indices[k] == k as u32
}

/// A fold whose steps keep `inv` ends, when it succeeds, in a state with `inv`.
pub proof fn lemma_fold_keeps<S>(
    step: spec_fn(S, int) -> Result<S, Seq<char>>,
    init: S,
    n: int,
    inv: spec_fn(S) -> bool,
)
    requires
        inv(init),
        forall|acc: S, i: int|
            0 <= i < n && inv(acc) && #[trigger] step(acc, i) is Ok ==> inv(step(acc, i)->Ok_0),
    ensures
        fold_upto(step, init, n) is Ok ==> inv(fold_upto(step, init, n)->Ok_0),
    decreases n,
{
    if n > 0 {
        lemma_fold_keeps(step, init, n - 1, inv);
    }
}

proof fn lemma_push_corner_keeps(out: MeshOut, c: CornerState)
    requires
        indexed_in_order(out),
    ensures
        indexed_in_order(push_corner(out, c)),
{
    let o = push_corner(out, c);
    assert forall|k: int| 0 <= k < o.indices.len() implies #[trigger] o.indices[k] == k as u32 by {
        if k < out.indices.len() {
            assert(o.indices[k] == out.indices[k]);
        }
    }
}

proof fn lemma_faces_keep(
    srcs: Seq<SourceModel>,
    vm: VertexModel,
    ins: Seq<InputModel>,
    indices: Seq<nat>,
    stride: nat,
    counts: Seq<nat>,
    out: MeshOut,
    n: int,
)
    requires
        indexed_in_order(out),
    ensures
        faces_upto(srcs, vm, ins, indices, stride, counts, out, n) matches Ok(o) ==> indexed_in_order(o),
{
    let step = |acc: MeshOut, i: int| face_step(srcs, vm, ins, indices, stride, counts, acc, i);
    assert forall|acc: MeshOut, i: int|
        0 <= i < n && indexed_in_order(acc) && #[trigger] step(acc, i) is Ok implies indexed_in_order(
        step(acc, i)->Ok_0,
    ) by {
        let cursor = (3 * stride * i) as nat;
        let c = cursor as int;
        let w = stride as int;
        let t0 = indices.subrange(c, c + w);
        let t1 = indices.subrange(c + w, c + 2 * w);
        let t2 = indices.subrange(c + 2 * w, c + 3 * w);
        if let (Ok(c0), Ok(c1), Ok(c2)) = (
            corner_of(srcs, vm, ins, t0),
            corner_of(srcs, vm, ins, t1),
            corner_of(srcs, vm, ins, t2),
        ) {
            lemma_push_corner_keeps(acc, c0);
            lemma_push_corner_keeps(push_corner(acc, c0), c1);
            lemma_push_corner_keeps(push_corner(push_corner(acc, c0), c1), c2);
        }
    }
    lemma_fold_keeps(step, out, n, |o: MeshOut| indexed_in_order(o));
}

proof fn lemma_primitives_keep(
    nodes: Seq<XmlNodeView>,
    srcs: Seq<SourceModel>,
    vm: VertexModel,
    prims: Seq<usize>,
    out: MeshOut,
    n: int,
)
    requires
        indexed_in_order(out),
    ensures
        primitives_upto(nodes, srcs, vm, prims, out, n) matches Ok(o) ==> indexed_in_order(o),
{
    let step = |acc: MeshOut, i: int| primitive_step(nodes, srcs, vm, prims[i] as int, acc);
    assert forall|acc: MeshOut, i: int|
        0 <= i < n && indexed_in_order(acc) && #[trigger] step(acc, i) is Ok implies indexed_in_order(
        step(acc, i)->Ok_0,
    ) by {
        let p = prims[i] as int;
        let in_nodes = children_named(nodes, p, "input"@);
        let ins = prim_inputs_upto(nodes, in_nodes, in_nodes.len() as int);
        if ins.len() > 0 {
            let stride = max_offset(ins, ins.len() as int) + 1;
            if let (Ok(indices), Ok(counts)) = (index_data(nodes, p, stride), face_counts(nodes, p)) {
                lemma_faces_keep(srcs, vm, ins, indices, stride, counts, acc, counts.len() as int);
            }
        }
    }
    lemma_fold_keeps(step, out, n, |o: MeshOut| indexed_in_order(o));
}

/// Every corner a Collada import reads becomes a vertex of its own: the
/// imported index list is `0, 1, 2, ...` (as `u32`), one index per position.
pub proof fn law_collada_indices_sequential(
    nodes: Seq<XmlNodeView>,
    floats: Seq<Seq<Result<u32, Seq<char>>>>,
)
    ensures
        collada_outcome(nodes, floats) matches Ok(out) ==> indexed_in_order(out),
{
    let root = first_element_child_from(nodes, 0, 0);
    let collada = match root {
        Some(r) => find_named(nodes, r as int, "COLLADA"@),
        None => None,
    };
    if let Some(c) = collada {
        let meshes = collada_meshes(nodes, c as int);
        let step = |acc: MeshOut, i: int| mesh_step(nodes, floats, meshes[i] as int, acc);
        let init = MeshOut {
            positions: Seq::empty(),
            normals: Seq::empty(),
            uvs: Seq::empty(),
            indices: Seq::empty(),
        };
        assert forall|acc: MeshOut, i: int|
            0 <= i < meshes.len() && indexed_in_order(acc) && #[trigger] step(acc, i) is Ok implies indexed_in_order(
            step(acc, i)->Ok_0,
        ) by {
            let m = meshes[i] as int;
            if let Ok(srcs) = mesh_sources(nodes, floats, m) {
                if let Ok(vm) = mesh_vertices(nodes, m, srcs) {
                    let prims = mesh_primitives(nodes, m);
                    lemma_primitives_keep(nodes, srcs, vm, prims, acc, prims.len() as int);
                }
            }
        }
        lemma_fold_keeps(step, init, meshes.len() as int, |o: MeshOut| indexed_in_order(o));
    }
}

/// The indices of corner `j` of face `i` in a list of `stride`-wide index
/// tuples: the tuple that starts at `3 * stride * i + j * stride`.
pub open spec fn face_tuple(indices: Seq<nat>, stride: nat, i: int, j: int) -> Seq<nat> {
    indices.subrange(3 * stride * i + j * stride, 3 * stride * i + j * stride + stride)
}

/// `o` is `out` followed by the corners of the first `n` faces, corner `j` of
/// face `i` read through the inputs from `face_tuple(indices, stride, i, j)`.
pub open spec fn faces_read_in_tuples(
    srcs: Seq<SourceModel>,
    vm: VertexModel,
    ins: Seq<InputModel>,
    indices: Seq<nat>,
    stride: nat,
    out: MeshOut,
    o: MeshOut,
    n: int,
) -> bool {
    &&& o.positions.len() == out.positions.len() + 3 * n
    &&& forall|k: int| 0 <= k < out.positions.len() ==> o.positions[k] == out.positions[k]
    &&& forall|i: int, j: int|
        0 <= i < n && 0 <= j < 3 ==> 3 * stride * i + j * stride + stride <= indices.len()
            && corner_of(srcs, vm, ins, #[trigger] face_tuple(indices, stride, i, j)) is Ok
            && o.positions[out.positions.len() + 3 * i + j] == corner_of(
            srcs,
            vm,
            ins,
            face_tuple(indices, stride, i, j),
        )->Ok_0.position->0
}

proof fn lemma_faces_read_in_tuples(
    srcs: Seq<SourceModel>,
    vm: VertexModel,
    ins: Seq<InputModel>,
    indices: Seq<nat>,
    stride: nat,
    counts: Seq<nat>,
    out: MeshOut,
    n: int,
)
    requires
        0 <= n,
    ensures
        faces_upto(srcs, vm, ins, indices, stride, counts, out, n) matches Ok(o)
            ==> faces_read_in_tuples(srcs, vm, ins, indices, stride, out, o, n),
    decreases n,
{
    if n > 0 {
        lemma_faces_read_in_tuples(srcs, vm, ins, indices, stride, counts, out, n - 1);
        let step = |acc: MeshOut, i: int| face_step(srcs, vm, ins, indices, stride, counts, acc, i);
        if let Ok(a) = faces_upto(srcs, vm, ins, indices, stride, counts, out, n - 1) {
            if let Ok(o) = face_step(srcs, vm, ins, indices, stride, counts, a, n - 1) {
                assert(faces_upto(srcs, vm, ins, indices, stride, counts, out, n) == step(a, n - 1));
                let w = stride as int;
                let f = n - 1;
                assert(3 * w * f >= 0) by (nonlinear_arith) requires w >= 0, f >= 0;
                let c = 3 * w * f;
                assert(c + w == 3 * w * f + 1 * w) by (nonlinear_arith) requires c == 3 * w * f;
                assert(c + 2 * w == 3 * w * f + 2 * w) by (nonlinear_arith) requires c == 3 * w * f;
                assert(c + 3 * w == 3 * w * n) by (nonlinear_arith) requires c == 3 * w * f, f == n - 1;
                let t0 = face_tuple(indices, stride, f, 0);
                let t1 = face_tuple(indices, stride, f, 1);
                let t2 = face_tuple(indices, stride, f, 2);
                let c0 = corner_of(srcs, vm, ins, t0)->Ok_0;
                let c1 = corner_of(srcs, vm, ins, t1)->Ok_0;
                let c2 = corner_of(srcs, vm, ins, t2)->Ok_0;
                assert(o == push_corner(push_corner(push_corner(a, c0), c1), c2));
                let base = out.positions.len() as int;
                assert forall|i: int, j: int|
                    0 <= i < n && 0 <= j < 3 implies 3 * stride * i + j * stride + stride <= indices.len()
                        && corner_of(srcs, vm, ins, #[trigger] face_tuple(indices, stride, i, j)) is Ok
                        && o.positions[base + 3 * i + j] == corner_of(
                        srcs,
                        vm,
                        ins,
                        face_tuple(indices, stride, i, j),
                    )->Ok_0.position->0 by {
                    if i < f {
                        assert(face_tuple(indices, stride, i, j) == face_tuple(indices, stride, i, j));
                        assert(3 * w * i + j * w + w <= 3 * w * f) by (nonlinear_arith)
                            requires 0 <= i < f, 0 <= j < 3, w >= 0;
                    } else {
                        assert(i == f);
                    }
                }
            }
        }
    }
}

/// The faces of a primitive are read from its `<p>` list in tuples `s` wide,
/// `s` being one more than the largest input offset: corner `j` of face `i`
/// comes from the tuple that starts at index `3 * s * i + j * s`. So the
/// positions an imported primitive adds are, in order, those read through
/// its inputs from the consecutive `s`-wide tuples of `<p>`.
pub proof fn law_collada_faces_read_in_tuples(
    nodes: Seq<XmlNodeView>,
    srcs: Seq<SourceModel>,
    vm: VertexModel,
    p: int,
    out: MeshOut,
)
    ensures
        primitive_step(nodes, srcs, vm, p, out) matches Ok(o) ==> ({
            let in_nodes = children_named(nodes, p, "input"@);
            let ins = prim_inputs_upto(nodes, in_nodes, in_nodes.len() as int);
            let s = max_offset(ins, ins.len() as int) + 1;
            let counts = face_counts(nodes, p)->Ok_0;
            &&& index_data(nodes, p, s) is Ok
            &&& face_counts(nodes, p) is Ok
            &&& faces_read_in_tuples(srcs, vm, ins, index_data(nodes, p, s)->Ok_0, s, out, o, counts.len() as int)
        }),
{
    let in_nodes = children_named(nodes, p, "input"@);
    let ins = prim_inputs_upto(nodes, in_nodes, in_nodes.len() as int);
    if ins.len() > 0 {
        let s = max_offset(ins, ins.len() as int) + 1;
        if let (Ok(indices), Ok(counts)) = (index_data(nodes, p, s), face_counts(nodes, p)) {
            lemma_faces_read_in_tuples(srcs, vm, ins, indices, s, counts, out, counts.len() as int);
        }
    }
}
} // verus!
