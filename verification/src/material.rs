//! Material assets and the material node graph.
//!
//! Colors are carried as the bit patterns of their `f32` components.
use vstd::prelude::*;

use crate::assetdb::AssetId;
use crate::text::{decimal, decimal_string, push_str};

verus! {

/// Bit pattern of `1.0f32`.
pub const ONE_BITS: u32 = 0x3f80_0000;

/// Material graph evaluation failure.
#[derive(Debug, Clone, PartialEq, Eq)]
pub enum MaterialGraphError {
    /// Generic graph error.
    Invalid(String),
}

/// Node kinds supported by the material graph.
#[derive(Debug, Clone, Copy, PartialEq, Eq)]
pub enum MaterialGraphNodeKind {
    /// Constant RGBA parameter node (`f32` bits).
    ConstantColor {
        /// Constant color value.
        color: [u32; 4],
    },
    /// Output node that exposes the final surface parameters.
    Output {
        /// Node id providing the base color value.
        base_color_node: u32,
    },
}

/// Material graph node with a stable local id.
#[derive(Debug, Clone, Copy, PartialEq, Eq)]
pub struct MaterialGraphNode {
    /// Node identifier unique within the graph.
    pub id: u32,
    /// Node behavior.
    pub kind: MaterialGraphNodeKind,
}

/// Material graph data model stored alongside material assets.
#[derive(Debug, Clone, PartialEq)]
pub struct MaterialGraphData {
    /// Graph schema version.
    pub version: u32,
    /// Graph nodes.
    pub nodes: Vec<MaterialGraphNode>,
}

/// Mathematical content of a [`MaterialGraphData`].
pub struct GraphModel {
    pub version: u32,
    pub nodes: Seq<MaterialGraphNode>,
}

impl View for MaterialGraphData {
    type V = GraphModel;

    open spec fn view(&self) -> GraphModel {
        GraphModel { version: self.version, nodes: self.nodes@ }
    }
}

/// CPU-side material payload stored in AssetDB blobs.
#[derive(Debug, Clone, PartialEq)]
pub struct MaterialAssetData {
    /// Material blob schema version.
    pub version: u32,
    /// Linear RGBA base color factor (`f32` bits).
    pub base_color: [u32; 4],
    /// Optional base color texture asset id.
    pub base_color_texture: Option<AssetId>,
    /// Optional node graph used to derive material parameters.
    pub graph: Option<MaterialGraphData>,
}

/// Mathematical content of a [`MaterialAssetData`].
pub struct MaterialModel {
    pub version: u32,
    pub base_color: [u32; 4],
    pub base_color_texture: Option<AssetId>,
    pub graph: Option<GraphModel>,
}

impl View for MaterialAssetData {
    type V = MaterialModel;

    open spec fn view(&self) -> MaterialModel {
        MaterialModel {
            version: self.version,
            base_color: self.base_color,
            base_color_texture: self.base_color_texture,
            graph: match self.graph {
                Some(g) => Some(g@),
                None => None,
            },
        }
    }
}

/// Material asset error type.
#[derive(Debug, Clone, PartialEq, Eq)]
pub enum MaterialAssetError {
    /// JSON serialization failure (also used for graph evaluation failures).
    Serialization(String),
}

/// The graph of a single constant color feeding the output node.
pub open spec fn base_color_graph(color: [u32; 4]) -> GraphModel {
    GraphModel {
        version: 1,
        nodes: seq![
            MaterialGraphNode { id: 0, kind: MaterialGraphNodeKind::ConstantColor { color } },
            MaterialGraphNode { id: 1, kind: MaterialGraphNodeKind::Output { base_color_node: 0 } },
        ],
    }
}

/// The base color input of the first output node among nodes `from..`.
pub open spec fn first_output(nodes: Seq<MaterialGraphNode>, from: int) -> Option<u32>
    decreases nodes.len() - from,
{
    if from < 0 || from >= nodes.len() {
        None
    } else {
        match nodes[from].kind {
            MaterialGraphNodeKind::Output { base_color_node } => Some(base_color_node),
            _ => first_output(nodes, from + 1),
        }
    }
}

/// The first node with the given id among nodes `from..`.
pub open spec fn find_node(nodes: Seq<MaterialGraphNode>, id: u32, from: int) -> Option<MaterialGraphNode>
    decreases nodes.len() - from,
{
    if from < 0 || from >= nodes.len() {
        None
    } else if nodes[from].id == id {
        Some(nodes[from])
    } else {
        find_node(nodes, id, from + 1)
    }
}

/// The color a node id resolves to.
pub open spec fn resolve_color_spec(nodes: Seq<MaterialGraphNode>, id: u32) -> Result<[u32; 4], Seq<char>> {
    match find_node(nodes, id, 0) {
        None => Err("missing node "@ + decimal(id as nat)),
        Some(node) => match node.kind {
            MaterialGraphNodeKind::ConstantColor { color } => Ok(color),
            MaterialGraphNodeKind::Output { .. } => Err("output node cannot be used as color input"@),
        },
    }
}

/// The material a graph evaluates to, or the evaluation error message.
pub open spec fn evaluate_spec(g: GraphModel) -> Result<MaterialModel, Seq<char>> {
    match first_output(g.nodes, 0) {
        None => Err("missing output node"@),
        Some(b) => match resolve_color_spec(g.nodes, b) {
            Err(m) => Err(m),
            Ok(color) => Ok(
                MaterialModel { version: 1, base_color: color, base_color_texture: None, graph: Some(g) },
            ),
        },
    }
}

/// What [`MaterialAssetData::resolved`] gives for a material.
pub open spec fn resolved_spec(m: MaterialModel) -> Result<MaterialModel, Seq<char>> {
    match m.graph {
        None => Ok(m),
        Some(g) => match evaluate_spec(g) {
            Err(e) => Err("invalid material graph: "@ + e),
            Ok(r) => Ok(MaterialModel { base_color_texture: m.base_color_texture, ..r }),
        },
    }
}

pub open spec fn graph_result(r: Result<MaterialAssetData, MaterialGraphError>) -> Result<MaterialModel, Seq<char>> {
    match r {
        Ok(m) => Ok(m@),
        Err(MaterialGraphError::Invalid(e)) => Err(e@),
    }
}

pub open spec fn material_result(r: Result<MaterialAssetData, MaterialAssetError>) -> Result<MaterialModel, Seq<char>> {
    match r {
        Ok(m) => Ok(m@),
        Err(MaterialAssetError::Serialization(e)) => Err(e@),
    }
}

fn copy_nodes(nodes: &Vec<MaterialGraphNode>) -> (r: Vec<MaterialGraphNode>)
    ensures
        r@ == nodes@,
{
    let mut r: Vec<MaterialGraphNode> = Vec::new();
    let mut i: usize = 0;
    while i < nodes.len()
        invariant
            i <= nodes.len(),
            r@ == nodes@.subrange(0, i as int),
        decreases nodes.len() - i,
    {
        r.push(nodes[i]);
        i += 1;
    }
    assert(nodes@.subrange(0, i as int) == nodes@);
    r
}

impl MaterialGraphData {
    /// A copy of this graph with the same content.
    pub fn duplicate(&self) -> (r: Self)
        ensures
            r@ == self@,
    {
        MaterialGraphData { version: self.version, nodes: copy_nodes(&self.nodes) }
    }

    /// Create a simple single-color graph.
    pub fn from_base_color(color: [u32; 4]) -> (r: Self)
        ensures
            r@ == base_color_graph(color),
    {
        let r = MaterialGraphData {
            version: 1,
            nodes: vec![
                MaterialGraphNode { id: 0, kind: MaterialGraphNodeKind::ConstantColor { color } },
                MaterialGraphNode { id: 1, kind: MaterialGraphNodeKind::Output { base_color_node: 0 } },
            ],
        };
        assert(r@.nodes == base_color_graph(color).nodes);
        r
    }

    /// The white single-color graph.
    pub fn default_graph() -> (r: Self)
        ensures
            r@ == base_color_graph([ONE_BITS, ONE_BITS, ONE_BITS, ONE_BITS]),
    {
        Self::from_base_color([ONE_BITS, ONE_BITS, ONE_BITS, ONE_BITS])
    }

    /// Evaluate the graph into a render-ready material payload.
    pub fn evaluate(&self) -> (r: Result<MaterialAssetData, MaterialGraphError>)
        ensures
            graph_result(r) == evaluate_spec(self@),
    {
        let base = self.find_output();
        let base_color_node = match base {
            Some(b) => b,
            None => {
                return Err(MaterialGraphError::Invalid("missing output node".to_owned()));
            },
        };
        let base_color = match self.resolve_color(base_color_node) {
            Ok(c) => c,
            Err(e) => {
                return Err(e);
            },
        };
        Ok(MaterialAssetData {
            version: 1,
            base_color,
            base_color_texture: None,
            graph: Some(self.duplicate()),
        })
    }

    fn find_output(&self) -> (r: Option<u32>)
        ensures
            r == first_output(self.nodes@, 0),
    {
        let mut i: usize = 0;
        while i < self.nodes.len()
            invariant
                i <= self.nodes.len(),
                first_output(self.nodes@, 0) == first_output(self.nodes@, i as int),
            decreases self.nodes.len() - i,
        {
            match self.nodes[i].kind {
                MaterialGraphNodeKind::Output { base_color_node } => {
                    return Some(base_color_node);
                },
                _ => {},
            }
            i += 1;
        }
        None
    }

    fn resolve_color(&self, node_id: u32) -> (r: Result<[u32; 4], MaterialGraphError>)
        ensures
            match r {
                Ok(c) => resolve_color_spec(self.nodes@, node_id) == Ok::<[u32; 4], Seq<char>>(c),
                Err(MaterialGraphError::Invalid(e)) => resolve_color_spec(self.nodes@, node_id) == Err::<
                    [u32; 4],
                    Seq<char>,
                >(e@),
            },
    {
        let mut i: usize = 0;
        while i < self.nodes.len()
            invariant
                i <= self.nodes.len(),
                find_node(self.nodes@, node_id, 0) == find_node(self.nodes@, node_id, i as int),
            decreases self.nodes.len() - i,
        {
            if self.nodes[i].id == node_id {
                return match self.nodes[i].kind {
                    MaterialGraphNodeKind::ConstantColor { color } => Ok(color),
                    MaterialGraphNodeKind::Output { .. } => Err(
                        MaterialGraphError::Invalid("output node cannot be used as color input".to_owned()),
                    ),
                };
            }
            i += 1;
        }
        let mut m = "missing node ".to_owned();
        push_str(&mut m, decimal_string(node_id as u64).as_str());
        Err(MaterialGraphError::Invalid(m))
    }
}

impl Default for MaterialAssetData {
    /// The white material without texture or graph.
    fn default() -> (r: Self)
        ensures
            r@ == (MaterialModel {
                version: 1,
                base_color: [ONE_BITS, ONE_BITS, ONE_BITS, ONE_BITS],
                base_color_texture: None,
                graph: None,
            }),
    {
        MaterialAssetData::default_material()
    }
}

impl Default for MaterialGraphData {
    /// The white single-color graph.
    fn default() -> (r: Self)
        ensures
            r@ == base_color_graph([ONE_BITS, ONE_BITS, ONE_BITS, ONE_BITS]),
    {
        MaterialGraphData::default_graph()
    }
}

impl MaterialAssetData {
    /// The white material without texture or graph.
    pub fn default_material() -> (r: Self)
        ensures
            r@ == (MaterialModel {
                version: 1,
                base_color: [ONE_BITS, ONE_BITS, ONE_BITS, ONE_BITS],
                base_color_texture: None,
                graph: None,
            }),
    {
        MaterialAssetData {
            version: 1,
            base_color: [ONE_BITS, ONE_BITS, ONE_BITS, ONE_BITS],
            base_color_texture: None,
            graph: None,
        }
    }

    /// A copy of this material with the same content.
    pub fn duplicate(&self) -> (r: Self)
        ensures
            r@ == self@,
    {
        MaterialAssetData {
            version: self.version,
            base_color: self.base_color,
            base_color_texture: self.base_color_texture,
            graph: match &self.graph {
                Some(g) => Some(g.duplicate()),
                None => None,
            },
        }
    }

    /// Resolve effective material parameters, evaluating an embedded graph when present.
    pub fn resolved(&self) -> (r: Result<Self, MaterialAssetError>)
        ensures
            material_result(r) == resolved_spec(self@),
    {
        match &self.graph {
            Some(graph) => match graph.evaluate() {
                Ok(mut resolved) => {
                    resolved.base_color_texture = self.base_color_texture;
                    Ok(resolved)
                },
                Err(MaterialGraphError::Invalid(e)) => {
                    let mut m = "invalid material graph: ".to_owned();
                    push_str(&mut m, e.as_str());
                    Err(MaterialAssetError::Serialization(m))
                },
            },
            None => Ok(self.duplicate()),
        }
    }
}

/// Helper for reading and writing material assets.
#[derive(Debug, Clone, Default)]
pub struct MaterialAsset;

/// A single-color graph evaluates to that color.
pub proof fn law_base_color_graph_evaluates(color: [u32; 4])
    ensures
        evaluate_spec(base_color_graph(color)) == Ok::<MaterialModel, Seq<char>>(
            MaterialModel {
                version: 1,
                base_color: color,
                base_color_texture: None,
                graph: Some(base_color_graph(color)),
            },
        ),
{
    let nodes = base_color_graph(color).nodes;
    assert(first_output(nodes, 0) == first_output(nodes, 1));
    assert(first_output(nodes, 1) == Some(0u32));
    assert(find_node(nodes, 0, 0) == Some(nodes[0]));
}

/// Resolving a material with a single-color graph keeps its texture and
/// takes the color of the graph.
pub proof fn law_resolved_base_color(m: MaterialModel, color: [u32; 4])
    requires
        m.graph == Some(base_color_graph(color)),
    ensures
        resolved_spec(m) == Ok::<MaterialModel, Seq<char>>(
            MaterialModel {
                version: 1,
                base_color: color,
                base_color_texture: m.base_color_texture,
                graph: Some(base_color_graph(color)),
            },
        ),
{
    law_base_color_graph_evaluates(color);
}

} // verus!
