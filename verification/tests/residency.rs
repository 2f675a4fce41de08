use create3d::assetdb::AssetId;
use create3d::gsplat::GaussianSplatChunkRecord;
use create3d::residency::{select_resident_chunks, ChunkCandidate, ChunkSelection};

const FULL_DETAIL_DISTANCE: f32 = 20.0;
const CULL_DISTANCE: f32 = 200.0;

fn sample_chunks(chunk_count: usize) -> Vec<GaussianSplatChunkRecord> {
    (0..chunk_count)
        .map(|index| {
            let offset = index as f32 * 10.0;
            GaussianSplatChunkRecord {
                chunk_id: index as u32,
                bounds_min: [offset.to_bits(), 0.0f32.to_bits(), 0.0f32.to_bits()],
                bounds_max: [(offset + 1.0).to_bits(), 1.0f32.to_bits(), 1.0f32.to_bits()],
                splat_count: 100,
                blob_asset_id: AssetId(index as u128 + 1),
                lod_stride: 4,
            }
        })
        .collect()
}

/// Measures each chunk's centre from `camera` the way the renderer does.
fn candidates(chunks: &[GaussianSplatChunkRecord], camera: [f32; 3]) -> Vec<ChunkCandidate> {
    chunks
        .iter()
        .map(|chunk| {
            let mut sum = 0.0f32;
            for axis in 0..3 {
                let lo = f32::from_bits(chunk.bounds_min[axis]);
                let hi = f32::from_bits(chunk.bounds_max[axis]);
                let d = (lo + hi) * 0.5 - camera[axis];
                sum += d * d;
            }
            let distance = sum.sqrt();
            ChunkCandidate {
                chunk: *chunk,
                distance_key: distance.to_bits(),
                culled: distance > CULL_DISTANCE,
                full_detail: distance <= FULL_DETAIL_DISTANCE,
            }
        })
        .collect()
}

#[test]
fn residency_limits_gpu_chunks() {
    let chunks = sample_chunks(32);
    let selected = select_resident_chunks(&candidates(&chunks, [0.0, 0.0, 0.0]), 4);
    assert_eq!(selected.len(), 4);
}

#[test]
fn residency_picks_nearest_chunks_first() {
    let chunks = sample_chunks(32);
    // Camera beside chunk 10: chunks 10, 9, 11, 8 are nearest, in that order
    // (9 and 11 are equally far; the one listed first wins).
    let selected = select_resident_chunks(&candidates(&chunks, [100.5, 0.5, 0.5]), 4);
    let ids: Vec<u32> = selected.iter().map(|s| s.chunk.chunk_id).collect();
    assert_eq!(ids, vec![10, 9, 11, 8]);
    let strides: Vec<u32> = selected.iter().map(|s| s.stride).collect();
    assert_eq!(strides, vec![1, 1, 1, 1]);
}

#[test]
fn residency_uses_lod_stride_beyond_full_detail() {
    let chunks = sample_chunks(32);
    let selected = select_resident_chunks(&candidates(&chunks, [0.0, 0.0, 0.0]), 8);
    let strides: Vec<u32> = selected.iter().map(|s| s.stride).collect();
    // Chunk centres at x = 0.5, 10.5, 20.5, ...: the first two are within 20.
    assert_eq!(strides, vec![1, 1, 4, 4, 4, 4, 4, 4]);
}

#[test]
fn residency_raises_small_lod_stride_to_two() {
    let mut chunks = sample_chunks(4);
    for chunk in chunks.iter_mut() {
        chunk.lod_stride = 1;
    }
    let selected = select_resident_chunks(&candidates(&chunks, [0.0, 0.0, 0.0]), 8);
    let strides: Vec<u32> = selected.iter().map(|s| s.stride).collect();
    assert_eq!(strides, vec![1, 1, 2, 2]);
}

#[test]
fn residency_skips_culled_chunks() {
    let chunks = sample_chunks(32);
    // Chunks beyond 200 units (x centre > 200) are culled: 20 chunks remain.
    let selected = select_resident_chunks(&candidates(&chunks, [0.0, 0.0, 0.0]), 100);
    assert_eq!(selected.len(), 20);
    assert_eq!(selected.last().map(|s| s.chunk.chunk_id), Some(19));
    let all_culled: Vec<ChunkSelection> =
        select_resident_chunks(&candidates(&chunks, [10_000.0, 0.0, 0.0]), 4);
    assert!(all_culled.is_empty());
}
