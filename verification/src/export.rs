//! Summaries of scene exports and the texture payloads they embed.
use vstd::prelude::*;

use crate::text::push_str;

verus! {

/// Encoded texture bytes handed to the glTF exporter.
#[derive(Debug, Clone, PartialEq, Eq)]
pub struct TextureExportData {
    /// Encoded image bytes.
    pub bytes: Vec<u8>,
    /// MIME type such as `image/png`.
    pub mime_type: String,
}

/// Summary of a glTF export.
#[derive(Debug, Clone, Copy, PartialEq, Eq)]
pub struct GltfExportReport {
    /// Number of glTF nodes written.
    pub node_count: usize,
    /// Number of triangle mesh glTF meshes written.
    pub mesh_count: usize,
    /// Number of point cloud entities exported as glTF POINTS meshes.
    pub point_cloud_count: usize,
    /// Total number of points written across all point cloud meshes.
    pub point_count: u64,
    /// Number of embedded texture images written.
    pub texture_count: usize,
    /// Output file size in bytes.
    pub byte_length: u64,
}

/// Summary of a Gaussian splat PLY export.
#[derive(Debug, Clone, Copy, PartialEq, Eq)]
pub struct GsplatExportReport {
    /// Number of Gaussian splat entities merged into the snapshot.
    pub entity_count: usize,
    /// Total number of splats written.
    pub splat_count: u64,
    /// Output file size in bytes.
    pub byte_length: u64,
}

/// Summary of a point cloud PLY export.
#[derive(Debug, Clone, Copy, PartialEq, Eq)]
pub struct PlyExportReport {
    /// Number of point cloud entities merged into the snapshot.
    pub entity_count: usize,
    /// Total number of points written.
    pub point_count: u64,
    /// Output file size in bytes.
    pub byte_length: u64,
}

/// Summary of a USD export.
#[derive(Debug, Clone, Copy, PartialEq, Eq)]
pub struct UsdExportReport {
    /// Number of Xform prims written.
    pub prim_count: usize,
    /// Number of Mesh prims written.
    pub mesh_count: usize,
    /// Output file size in bytes.
    pub byte_length: u64,
}

/// The label an exported entity is known by: its name, or its id when it
/// has none.
pub fn entity_label(name: &Option<String>, id: &str) -> (r: String)
    ensures
        r@ == match name {
            Some(n) => n@,
            None => id@,
        },
{
    match name {
        Some(n) => n.clone(),
        None => {
            let mut r = String::new();
            push_str(&mut r, id);
            r
        },
    }
}

} // verus!
