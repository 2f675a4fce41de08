//! Gaussian splat asset metadata and chunk payloads.
//!
//! Floating-point fields are carried as the bit patterns of their `f32`
//! values.
use vstd::prelude::*;

use crate::assetdb::AssetId;
use crate::columns::{filter_rows, kept};
use crate::text::{decimal, decimal_string, push_str};

verus! {

/// Gaussian splat asset error type.
#[derive(Debug, Clone, PartialEq, Eq)]
pub enum GaussianSplatAssetError {
    /// JSON serialization failure.
    Serialization(String),
    /// Asset payload is invalid.
    Invalid(String),
}

/// Chunk index entry stored in the Gaussian splat metadata blob.
#[derive(Debug, Clone, Copy, PartialEq, Eq)]
pub struct GaussianSplatChunkRecord {
    /// Stable chunk identifier within the asset.
    pub chunk_id: u32,
    /// Chunk bounds minimum corner (`f32` bits).
    pub bounds_min: [u32; 3],
    /// Chunk bounds maximum corner (`f32` bits).
    pub bounds_max: [u32; 3],
    /// Number of splats stored in the chunk blob.
    pub splat_count: u32,
    /// AssetDB blob id containing chunk payload bytes.
    pub blob_asset_id: AssetId,
    /// LOD stride used when the chunk is rendered at low detail.
    pub lod_stride: u32,
}

/// Gaussian splat metadata blob stored in AssetDB.
#[derive(Debug, Clone, PartialEq)]
pub struct GaussianSplatAssetData {
    /// Splat blob schema version.
    pub version: u32,
    /// Total number of splats across all chunks.
    pub splat_count: u64,
    /// Global bounds minimum corner (`f32` bits).
    pub bounds_min: [u32; 3],
    /// Global bounds maximum corner (`f32` bits).
    pub bounds_max: [u32; 3],
    /// Spherical harmonics degree stored in source data.
    pub sh_degree: u32,
    /// Spatial chunk index.
    pub chunks: Vec<GaussianSplatChunkRecord>,
}

/// The first chunk problem among chunks `from..`: an empty chunk or a zero
/// LOD stride, checked in that order for each chunk.
pub open spec fn splat_chunk_problem(chunks: Seq<GaussianSplatChunkRecord>, from: int) -> Option<Seq<char>>
    decreases chunks.len() - from,
{
    if from < 0 || from >= chunks.len() {
        None
    } else if chunks[from].splat_count == 0 {
        Some("chunk "@ + decimal(chunks[from].chunk_id as nat) + " is empty"@)
    } else if chunks[from].lod_stride == 0 {
        Some("chunk "@ + decimal(chunks[from].chunk_id as nat) + " has invalid lod stride"@)
    } else {
        splat_chunk_problem(chunks, from + 1)
    }
}

/// Outcome of [`GaussianSplatAssetData::validate`].
pub open spec fn splat_asset_check(splat_count: u64, chunks: Seq<GaussianSplatChunkRecord>) -> Result<(), Seq<char>> {
    if chunks.len() == 0 {
        Err("gaussian splat asset has no chunks"@)
    } else if splat_count == 0 {
        Err("gaussian splat asset has zero splats"@)
    } else {
        match splat_chunk_problem(chunks, 0) {
            Some(m) => Err(m),
            None => Ok(()),
        }
    }
}

pub open spec fn splat_invalid_message(r: Result<(), GaussianSplatAssetError>) -> Result<(), Seq<char>> {
    match r {
        Ok(()) => Ok(()),
        Err(GaussianSplatAssetError::Invalid(m)) => Err(m@),
        Err(GaussianSplatAssetError::Serialization(m)) => Err("serialization error: "@ + m@),
    }
}

fn chunk_message(chunk_id: u32, rest: &str) -> (r: String)
    ensures
        r@ == "chunk "@ + decimal(chunk_id as nat) + rest@,
{
    let mut r = "chunk ".to_owned();
    push_str(&mut r, decimal_string(chunk_id as u64).as_str());
    push_str(&mut r, rest);
    r
}

impl GaussianSplatAssetData {
    /// Validate metadata and chunk index invariants.
    pub fn validate(&self) -> (r: Result<(), GaussianSplatAssetError>)
        ensures
            splat_invalid_message(r) == splat_asset_check(self.splat_count, self.chunks@),
            r matches Err(e) ==> e is Invalid,
    {
        if self.chunks.len() == 0 {
            return Err(GaussianSplatAssetError::Invalid("gaussian splat asset has no chunks".to_owned()));
        }
        if self.splat_count == 0 {
            return Err(GaussianSplatAssetError::Invalid("gaussian splat asset has zero splats".to_owned()));
        }
        let mut i: usize = 0;
        while i < self.chunks.len()
            invariant
                i <= self.chunks.len(),
                self.chunks.len() > 0,
                self.splat_count != 0,
                splat_chunk_problem(self.chunks@, 0) == splat_chunk_problem(self.chunks@, i as int),
            decreases self.chunks.len() - i,
        {
            let chunk = self.chunks[i];
            if chunk.splat_count == 0 {
                return Err(GaussianSplatAssetError::Invalid(chunk_message(chunk.chunk_id, " is empty")));
            }
            if chunk.lod_stride == 0 {
                return Err(GaussianSplatAssetError::Invalid(chunk_message(chunk.chunk_id, " has invalid lod stride")));
            }
            i += 1;
        }
        Ok(())
    }

    /// The check that precedes encoding: metadata is encoded only when valid.
    pub fn check_encodable(&self) -> (r: Result<(), GaussianSplatAssetError>)
        ensures
            splat_invalid_message(r) == splat_asset_check(self.splat_count, self.chunks@),
    {
        self.validate()
    }
}

/// Helper for reading and writing Gaussian splat assets.
#[derive(Debug, Clone, Default)]
pub struct GaussianSplatAsset;

/// Chunk payload serialization failure.
#[derive(Debug, Clone, PartialEq, Eq)]
pub enum GaussianSplatChunkError {
    /// JSON serialization failure.
    Serialization(String),
}

/// Structure-of-arrays Gaussian splat chunk payload stored in AssetDB.
#[derive(Debug, Clone, PartialEq)]
pub struct GaussianSplatChunkPayload {
    /// Local-space splat centers (`f32` bits).
    pub positions: Vec<[u32; 3]>,
    /// Unit quaternions in xyzw order (`f32` bits).
    pub rotations: Vec<[u32; 4]>,
    /// Linear scales after activation (`f32` bits).
    pub scales: Vec<[u32; 3]>,
    /// Opacity values in 0..1 after activation (`f32` bits).
    pub opacities: Vec<u32>,
    /// RGB colors baked from SH degree-0 coefficients (`f32` bits).
    pub colors: Vec<[u32; 3]>,
}

impl GaussianSplatChunkPayload {
    /// A payload with no splats.
    pub fn empty() -> (r: Self)
        ensures
            r.positions@.len() == 0,
            r.rotations@.len() == 0,
            r.scales@.len() == 0,
            r.opacities@.len() == 0,
            r.colors@.len() == 0,
    {
        GaussianSplatChunkPayload {
            positions: Vec::new(),
            rotations: Vec::new(),
            scales: Vec::new(),
            opacities: Vec::new(),
            colors: Vec::new(),
        }
    }

    /// Returns the number of splats in this chunk.
    pub fn splat_count(&self) -> (r: usize)
        ensures
            r == self.positions.len(),
    {
        self.positions.len()
    }

    /// The splats whose entry in `inside` is set (whether each center lies
    /// in the crop box), with every attribute column filtered alike.
    pub fn crop(&self, inside: &Vec<bool>) -> (r: Self)
        requires
            inside.len() == self.positions.len(),
        ensures
            r.positions@ == kept(self.positions@, inside@, inside.len() as int),
            r.rotations@ == kept(self.rotations@, inside@, inside.len() as int),
            r.scales@ == kept(self.scales@, inside@, inside.len() as int),
            r.opacities@ == kept(self.opacities@, inside@, inside.len() as int),
            r.colors@ == kept(self.colors@, inside@, inside.len() as int),
    {
        GaussianSplatChunkPayload {
            positions: filter_rows(&self.positions, inside),
            rotations: filter_rows(&self.rotations, inside),
            scales: filter_rows(&self.scales, inside),
            opacities: filter_rows(&self.opacities, inside),
            colors: filter_rows(&self.colors, inside),
        }
    }

    /// The check that precedes encoding: a chunk needs at least one splat.
    pub fn check_encodable(&self) -> (r: Result<(), GaussianSplatChunkError>)
        ensures
            r is Ok <==> self.positions.len() > 0,
            r matches Err(GaussianSplatChunkError::Serialization(m)) ==> m@ == "chunk has no positions"@,
    {
        if self.positions.len() == 0 {
            return Err(GaussianSplatChunkError::Serialization("chunk has no positions".to_owned()));
        }
        Ok(())
    }
}

} // verus!
