use vstd::prelude::*;

pub mod text;
pub mod keyed;
pub mod tools;
pub mod copilot;
pub mod hash;
pub mod assetdb;
pub mod mesh;
pub mod columns;
pub mod pointcloud;
pub mod gsplat;
pub mod residency;
pub mod material;
pub mod gsplat_import;
pub mod xml;
pub mod collada;
pub mod usd;
pub mod usd_export;
pub mod glb;
pub mod glb_builder;
pub mod gltf_export;
pub mod bridge;
pub mod export;
pub mod ply_export;
pub mod gltf_layout;
pub mod gltf_import;
pub mod gltf_json;

verus! {

} // verus!
