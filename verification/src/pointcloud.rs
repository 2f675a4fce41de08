//! Point cloud asset metadata and chunk payloads.
//!
//! Floating-point fields are carried as the bit patterns of their `f32`
//! values.
use vstd::prelude::*;

use crate::assetdb::AssetId;
use crate::columns::{filter_rows, kept};
use crate::text::{decimal, decimal_string, push_str};

verus! {

/// Point cloud asset error type.
#[derive(Debug, Clone, PartialEq, Eq)]
pub enum PointCloudAssetError {
    /// JSON serialization failure.
    Serialization(String),
    /// Asset payload is invalid.
    Invalid(String),
}

/// Chunk index entry stored in the point cloud metadata blob.
#[derive(Debug, Clone, Copy, PartialEq, Eq)]
pub struct PointCloudChunkRecord {
    /// Stable chunk identifier within the asset.
    pub chunk_id: u32,
    /// Chunk bounds minimum corner (`f32` bits).
    pub bounds_min: [u32; 3],
    /// Chunk bounds maximum corner (`f32` bits).
    pub bounds_max: [u32; 3],
    /// Number of points stored in the chunk blob.
    pub point_count: u32,
    /// AssetDB blob id containing chunk payload bytes.
    pub blob_asset_id: AssetId,
    /// LOD stride used when the chunk is rendered at low detail.
    pub lod_stride: u32,
}

/// Point cloud metadata blob stored in AssetDB.
#[derive(Debug, Clone, PartialEq)]
pub struct PointCloudAssetData {
    /// Point cloud blob schema version.
    pub version: u32,
    /// Total number of points across all chunks.
    pub point_count: u64,
    /// Global bounds minimum corner (`f32` bits).
    pub bounds_min: [u32; 3],
    /// Global bounds maximum corner (`f32` bits).
    pub bounds_max: [u32; 3],
    /// Whether RGB colors are present in chunk payloads.
    pub has_rgb: bool,
    /// Whether intensity values are present.
    pub has_intensity: bool,
    /// Whether classification values are present.
    pub has_classification: bool,
    /// Spatial chunk index.
    pub chunks: Vec<PointCloudChunkRecord>,
}

/// The first chunk problem among chunks `from..`: an empty chunk or a zero
/// LOD stride, checked in that order for each chunk.
pub open spec fn chunk_problem(chunks: Seq<PointCloudChunkRecord>, from: int) -> Option<Seq<char>>
    decreases chunks.len() - from,
{
    if from < 0 || from >= chunks.len() {
        None
    } else if chunks[from].point_count == 0 {
        Some("chunk "@ + decimal(chunks[from].chunk_id as nat) + " is empty"@)
    } else if chunks[from].lod_stride == 0 {
        Some("chunk "@ + decimal(chunks[from].chunk_id as nat) + " has invalid lod stride"@)
    } else {
        chunk_problem(chunks, from + 1)
    }
}

/// Outcome of [`PointCloudAssetData::validate`].
pub open spec fn point_cloud_check(point_count: u64, chunks: Seq<PointCloudChunkRecord>) -> Result<(), Seq<char>> {
    if chunks.len() == 0 {
        Err("point cloud has no chunks"@)
    } else if point_count == 0 {
        Err("point cloud has zero points"@)
    } else {
        match chunk_problem(chunks, 0) {
            Some(m) => Err(m),
            None => Ok(()),
        }
    }
}

pub open spec fn invalid_message(r: Result<(), PointCloudAssetError>) -> Result<(), Seq<char>> {
    match r {
        Ok(()) => Ok(()),
        Err(PointCloudAssetError::Invalid(m)) => Err(m@),
        Err(PointCloudAssetError::Serialization(m)) => Err("serialization error: "@ + m@),
    }
}

fn chunk_message(chunk_id: u32, rest: &str) -> (r: String)
    ensures
        r@ == "chunk "@ + decimal(chunk_id as nat) + rest@,
{
    let mut r = "chunk ".to_owned();
    push_str(&mut r, decimal_string(chunk_id as u64).as_str());
    push_str(&mut r, rest);
    r
}

impl PointCloudAssetData {
    /// Validate metadata and chunk index invariants.
    pub fn validate(&self) -> (r: Result<(), PointCloudAssetError>)
        ensures
            invalid_message(r) == point_cloud_check(self.point_count, self.chunks@),
            r matches Err(e) ==> e is Invalid,
    {
        if self.chunks.len() == 0 {
            return Err(PointCloudAssetError::Invalid("point cloud has no chunks".to_owned()));
        }
        if self.point_count == 0 {
            return Err(PointCloudAssetError::Invalid("point cloud has zero points".to_owned()));
        }
        let mut i: usize = 0;
        while i < self.chunks.len()
            invariant
                i <= self.chunks.len(),
                self.chunks.len() > 0,
                self.point_count != 0,
                chunk_problem(self.chunks@, 0) == chunk_problem(self.chunks@, i as int),
            decreases self.chunks.len() - i,
        {
            let chunk = self.chunks[i];
            if chunk.point_count == 0 {
                return Err(PointCloudAssetError::Invalid(chunk_message(chunk.chunk_id, " is empty")));
            }
            if chunk.lod_stride == 0 {
                return Err(PointCloudAssetError::Invalid(chunk_message(chunk.chunk_id, " has invalid lod stride")));
            }
            i += 1;
        }
        Ok(())
    }

    /// The check that precedes encoding: metadata is encoded only when valid.
    pub fn check_encodable(&self) -> (r: Result<(), PointCloudAssetError>)
        ensures
            invalid_message(r) == point_cloud_check(self.point_count, self.chunks@),
    {
        self.validate()
    }
}

/// Helper for reading and writing point cloud assets.
#[derive(Debug, Clone, Default)]
pub struct PointCloudAsset;

/// Chunk payload serialization failure.
#[derive(Debug, Clone, PartialEq, Eq)]
pub enum PointCloudChunkError {
    /// JSON serialization failure.
    Serialization(String),
}

/// Structure-of-arrays chunk payload stored in AssetDB.
#[derive(Debug, Clone, PartialEq)]
pub struct PointCloudChunkPayload {
    /// Local-space positions for this chunk (`f32` bits).
    pub positions: Vec<[u32; 3]>,
    /// Optional RGB colors in 0..255.
    pub colors: Vec<[u8; 3]>,
    /// Optional scalar intensity values (`f32` bits).
    pub intensity: Vec<u32>,
    /// Optional classification ids.
    pub classification: Vec<u8>,
}

impl PointCloudChunkPayload {
    /// Returns the number of points in this chunk.
    pub fn point_count(&self) -> (r: usize)
        ensures
            r == self.positions.len(),
    {
        self.positions.len()
    }

    /// The points whose entry in `inside` is set (whether each point lies
    /// in the crop box), with every attribute column filtered alike.
    pub fn crop(&self, inside: &Vec<bool>) -> (r: Self)
        requires
            inside.len() == self.positions.len(),
        ensures
            r.positions@ == kept(self.positions@, inside@, inside.len() as int),
            r.colors@ == kept(self.colors@, inside@, inside.len() as int),
            r.intensity@ == kept(self.intensity@, inside@, inside.len() as int),
            r.classification@ == kept(self.classification@, inside@, inside.len() as int),
    {
        PointCloudChunkPayload {
            positions: filter_rows(&self.positions, inside),
            colors: filter_rows(&self.colors, inside),
            intensity: filter_rows(&self.intensity, inside),
            classification: filter_rows(&self.classification, inside),
        }
    }

    /// The check that precedes encoding: a chunk needs at least one point.
    pub fn check_encodable(&self) -> (r: Result<(), PointCloudChunkError>)
        ensures
            r is Ok <==> self.positions.len() > 0,
            r matches Err(PointCloudChunkError::Serialization(m)) ==> m@ == "chunk has no positions"@,
    {
        if self.positions.len() == 0 {
            return Err(PointCloudChunkError::Serialization("chunk has no positions".to_owned()));
        }
        Ok(())
    }
}

} // verus!
