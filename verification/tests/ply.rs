use create3d::ply_export::{
    gsplat_header_text, merge_point_clouds, merge_splats, ExportError, MergedPointCloud, PlacedChunk,
    PointCloudEntity, SplatEntity,
};
use create3d::pointcloud::{PointCloudAssetData, PointCloudChunkPayload};

fn bits3(v: [f32; 3]) -> [u32; 3] {
    [v[0].to_bits(), v[1].to_bits(), v[2].to_bits()]
}

fn metadata(has_rgb: bool, has_intensity: bool, has_classification: bool) -> PointCloudAssetData {
    PointCloudAssetData {
        version: 1,
        point_count: 2,
        bounds_min: bits3([0.0, 0.0, 0.0]),
        bounds_max: bits3([1.0, 1.0, 1.0]),
        has_rgb,
        has_intensity,
        has_classification,
        chunks: Vec::new(),
    }
}

fn two_points() -> PointCloudChunkPayload {
    PointCloudChunkPayload {
        positions: vec![bits3([0.0, 0.0, 0.0]), bits3([1.0, 0.0, 0.0])],
        colors: vec![[10, 20, 30]],
        intensity: vec![0.5f32.to_bits(), 0.25f32.to_bits()],
        classification: Vec::new(),
    }
}

#[test]
fn empty_snapshot_header_lists_positions_only() {
    let merged = MergedPointCloud::new();
    assert_eq!(merged.point_count(), 0);
    assert_eq!(
        merged.header(),
        "ply\nformat ascii 1.0\nelement vertex 0\nproperty float x\nproperty float y\nproperty float z\nend_header\n"
    );
}

#[test]
fn merged_attributes_fill_missing_values() {
    let mut merged = MergedPointCloud::new();
    let payload = two_points();
    let world = vec![bits3([5.0, 0.0, 0.0]), bits3([6.0, 0.0, 0.0])];
    merged.append_payload(&payload, &metadata(true, true, true), &world);
    assert_eq!(merged.point_count(), 2);
    assert_eq!(merged.positions, world);
    assert_eq!(merged.colors, vec![[10, 20, 30], [255, 255, 255]]);
    assert_eq!(merged.intensity, vec![0.5f32.to_bits(), 0.25f32.to_bits()]);
    assert_eq!(merged.classification, vec![0, 0]);
    assert_eq!(
        merged.header(),
        "ply\nformat ascii 1.0\nelement vertex 2\nproperty float x\nproperty float y\nproperty float z\n\
         property uchar red\nproperty uchar green\nproperty uchar blue\n\
         property float intensity\nproperty uchar classification\nend_header\n"
    );
}

#[test]
fn attributes_come_only_from_assets_that_have_them() {
    let mut merged = MergedPointCloud::new();
    let payload = two_points();
    let world = vec![bits3([0.0, 0.0, 0.0]), bits3([1.0, 0.0, 0.0])];
    merged.append_payload(&payload, &metadata(false, false, false), &world);
    assert!(merged.colors.is_empty());
    merged.append_payload(&payload, &metadata(true, false, false), &world);
    assert_eq!(merged.point_count(), 4);
    // Colors exist only for the second chunk's points.
    assert_eq!(merged.colors.len(), 2);
    assert!(merged.has_rgb && !merged.has_intensity && !merged.has_classification);
    assert!(merged.header().contains("element vertex 4\n"));
    assert!(merged.header().contains("property uchar red\n"));
    assert!(!merged.header().contains("intensity"));
}

#[test]
fn gsplat_header_names_every_column() {
    let header = gsplat_header_text(3);
    assert_eq!(
        header,
        "ply\nformat ascii 1.0\nelement vertex 3\n\
         property float x\nproperty float y\nproperty float z\n\
         property float f_dc_0\nproperty float f_dc_1\nproperty float f_dc_2\n\
         property float opacity\n\
         property float scale_0\nproperty float scale_1\nproperty float scale_2\n\
         property float rot_0\nproperty float rot_1\nproperty float rot_2\nproperty float rot_3\n\
         end_header\n"
    );
}

fn placed(payload: PointCloudChunkPayload) -> PlacedChunk {
    let world_positions = payload.positions.clone();
    PlacedChunk { payload, world_positions }
}

fn empty_chunk() -> PointCloudChunkPayload {
    PointCloudChunkPayload { positions: Vec::new(), colors: Vec::new(), intensity: Vec::new(), classification: Vec::new() }
}

#[test]
fn merging_counts_entities_that_contribute_points() {
    let entities = vec![
        PointCloudEntity { metadata: Ok(metadata(true, false, false)), chunks: vec![Ok(placed(two_points())), Ok(placed(empty_chunk()))] },
        PointCloudEntity { metadata: Ok(metadata(false, false, false)), chunks: vec![Ok(placed(empty_chunk()))] },
        PointCloudEntity { metadata: Ok(metadata(false, true, false)), chunks: vec![Ok(placed(two_points()))] },
    ];
    let (merged, count) = merge_point_clouds(&entities).expect("merge");
    assert_eq!(count, 2);
    assert_eq!(merged.point_count(), 4);
    assert_eq!(merged.colors.len(), 2);
    assert_eq!(merged.intensity.len(), 2);
    assert!(merged.has_rgb && merged.has_intensity && !merged.has_classification);
}

#[test]
fn merging_nothing_is_an_empty_scene() {
    assert_eq!(merge_point_clouds(&Vec::new()).err(), Some(ExportError::EmptyScene));
    let entities = vec![PointCloudEntity { metadata: Ok(metadata(true, true, true)), chunks: vec![Ok(placed(empty_chunk()))] }];
    assert_eq!(merge_point_clouds(&entities).err(), Some(ExportError::EmptyScene));
}

#[test]
fn merging_stops_at_first_loading_error() {
    let entities = vec![
        PointCloudEntity {
            metadata: Ok(metadata(false, false, false)),
            chunks: vec![Ok(placed(two_points())), Err(ExportError::Asset("chunk missing".to_string()))],
        },
        PointCloudEntity { metadata: Err(ExportError::Asset("metadata missing".to_string())), chunks: Vec::new() },
    ];
    assert_eq!(merge_point_clouds(&entities).err(), Some(ExportError::Asset("chunk missing".to_string())));
}

#[test]
fn merging_splats_skips_empty_chunks_and_counts_entities() {
    let row = [1u32; 14];
    let entities = vec![
        SplatEntity { metadata: Ok(()), chunks: vec![Ok(vec![row, row]), Ok(Vec::new())] },
        SplatEntity { metadata: Ok(()), chunks: vec![Ok(Vec::new())] },
        SplatEntity { metadata: Ok(()), chunks: vec![Ok(vec![[2u32; 14]])] },
    ];
    let (rows, count) = merge_splats(&entities).expect("merge");
    assert_eq!(count, 2);
    assert_eq!(rows, vec![row, row, [2u32; 14]]);
    let none = vec![SplatEntity { metadata: Ok(()), chunks: vec![Ok(Vec::new())] }];
    assert_eq!(merge_splats(&none), Err(ExportError::EmptyScene));
    let failed = vec![
        SplatEntity { metadata: Err(ExportError::Asset("metadata missing".to_string())), chunks: Vec::new() },
        SplatEntity { metadata: Ok(()), chunks: vec![Err(ExportError::Asset("chunk missing".to_string()))] },
    ];
    assert_eq!(merge_splats(&failed), Err(ExportError::Asset("metadata missing".to_string())));
}
