use create3d::assetdb::{AssetDb, AssetId, AssetKind};
use create3d::gsplat::GaussianSplatChunkPayload;
use create3d::gsplat_import::{
    chunk_by_cells, gsplat_ply_table_bytes, looks_like_gsplat_ply, ImportError, ParsedGaussianSplatCloud,
};
use create3d::hash::ContentHash;
use create3d::material::MaterialGraphData;
use create3d::mesh::MeshAssetData;
use create3d::pointcloud::PointCloudChunkPayload;

fn bits3(v: [f32; 3]) -> [u32; 3] {
    [v[0].to_bits(), v[1].to_bits(), v[2].to_bits()]
}

fn inside_unit_box(p: [u32; 3]) -> bool {
    p.iter().all(|b| {
        let v = f32::from_bits(*b);
        (-1.0..=1.0).contains(&v)
    })
}

#[test]
fn hash_round_trip() {
    let hash = ContentHash::of_bytes(b"hello");
    let parsed = ContentHash::from_hex(&hash.to_hex()).expect("parse hash");
    assert_eq!(hash, parsed);
}

#[test]
fn hash_is_not_the_input() {
    let hash = ContentHash::of_bytes(b"hello");
    let mut padded = [0u8; 32];
    padded[..5].copy_from_slice(b"hello");
    assert_ne!(hash.as_bytes(), padded);
    assert_ne!(hash, ContentHash::of_bytes(b"hello!"));
    assert_eq!(hash.to_hex().len(), 64);
    assert!(ContentHash::from_hex("xyz").is_none());
    assert!(ContentHash::from_hex(&"G".repeat(64)).is_none());
    assert!(ContentHash::from_hex(&"AB".repeat(32)).is_some());
}

#[test]
fn graph_evaluates_base_color() {
    let color = [0.2f32.to_bits(), 0.4f32.to_bits(), 0.8f32.to_bits(), 1.0f32.to_bits()];
    let graph = MaterialGraphData::from_base_color(color);
    let material = graph.evaluate().expect("evaluate graph");
    assert_eq!(material.base_color, color);
}

#[test]
fn rejects_out_of_range_index_in_validate() {
    let mesh = MeshAssetData {
        version: 1,
        positions: vec![
            bits3([0.0, 0.0, 0.0]),
            bits3([1.0, 0.0, 0.0]),
            bits3([0.0, 1.0, 0.0]),
        ],
        normals: Vec::new(),
        uvs: Vec::new(),
        tangents: Vec::new(),
        indices: vec![0, 1, 99],
    };
    assert!(mesh.validate().is_err());
}

#[test]
fn valid_triangle_passes_validate() {
    let mesh = MeshAssetData {
        version: 1,
        positions: vec![
            bits3([0.0, 0.0, 0.0]),
            bits3([1.0, 0.0, 0.0]),
            bits3([0.0, 1.0, 0.0]),
        ],
        normals: Vec::new(),
        uvs: Vec::new(),
        tangents: Vec::new(),
        indices: vec![0, 1, 2],
    };
    assert!(mesh.validate().is_ok());
}

#[test]
fn crop_filters_splats() {
    let one = 1.0f32.to_bits();
    let zero = 0.0f32.to_bits();
    let tenth = bits3([0.1, 0.1, 0.1]);
    let chunk = GaussianSplatChunkPayload {
        positions: vec![bits3([0.0, 0.0, 0.0]), bits3([2.0, 0.0, 0.0])],
        rotations: vec![[zero, zero, zero, one], [zero, zero, zero, one]],
        scales: vec![tenth, tenth],
        opacities: vec![one, one],
        colors: vec![bits3([1.0, 0.0, 0.0]), bits3([0.0, 1.0, 0.0])],
    };
    let inside: Vec<bool> = chunk.positions.iter().map(|p| inside_unit_box(*p)).collect();
    let cropped = chunk.crop(&inside);
    assert_eq!(cropped.splat_count(), 1);
    assert_eq!(cropped.colors, vec![bits3([1.0, 0.0, 0.0])]);
}

#[test]
fn crop_filters_points() {
    let chunk = PointCloudChunkPayload {
        positions: vec![bits3([0.0, 0.0, 0.0]), bits3([2.0, 0.0, 0.0])],
        colors: vec![[255, 0, 0], [0, 255, 0]],
        intensity: Vec::new(),
        classification: Vec::new(),
    };
    let inside: Vec<bool> = chunk.positions.iter().map(|p| inside_unit_box(*p)).collect();
    let cropped = chunk.crop(&inside);
    assert_eq!(cropped.point_count(), 1);
    assert_eq!(cropped.colors, vec![[255, 0, 0]]);
}

#[test]
fn detects_gsplat_ply_header() {
    let ply = b"ply\nformat ascii 1.0\nproperty float f_dc_0\nproperty float opacity\nproperty float scale_0\nproperty float rot_0\nend_header\n";
    assert!(looks_like_gsplat_ply(ply));
    assert!(!looks_like_gsplat_ply(b"ply\nproperty float x\nend_header\n"));
}

#[test]
fn index_survives_reopen() {
    let id = AssetId(7);
    let hash = ContentHash::of_bytes(br#"{"positions":[]}"#);
    let mut db = AssetDb::open("project", Vec::new());
    db.insert(
        id,
        AssetKind::Mesh,
        "cube",
        hash,
        Some("application/json".to_string()),
    );
    db.insert(AssetId(3), AssetKind::Texture, "albedo", hash, None);
    let saved = db.records();
    assert_eq!(saved.iter().map(|r| r.id).collect::<Vec<_>>(), vec![AssetId(3), AssetId(7)]);
    let reopened = AssetDb::open("project", saved);
    let record = reopened.get(id).expect("asset record");
    assert_eq!(record.name, "cube");
    assert_eq!(record.content_hash, hash);
    assert_eq!(reopened.records().len(), 2);
}

#[test]
fn blob_paths_are_content_addressed() {
    let db = AssetDb::open("project", Vec::new());
    let a = ContentHash::of_bytes(b"mesh-data");
    let b = ContentHash::of_bytes(b"mesh-data");
    assert_eq!(db.blobs().path_for(a), db.blobs().path_for(b));
    assert!(db.blobs().path_for(a).ends_with(&a.to_hex()));
}

#[test]
fn defaults_are_empty_mesh_and_white_material() {
    let mesh = MeshAssetData::default();
    assert_eq!(mesh.version, 1);
    assert!(mesh.positions.is_empty() && mesh.indices.is_empty());
    let material = create3d::material::MaterialAssetData::default();
    assert_eq!(material.base_color, [1.0f32.to_bits(); 4]);
    assert_eq!(material.base_color_texture, None);
    assert!(material.graph.is_none());
    let graph = create3d::material::MaterialGraphData::default();
    assert_eq!(graph.evaluate().expect("evaluate").base_color, [1.0f32.to_bits(); 4]);
}

#[test]
fn replacing_a_blob_keeps_the_record_otherwise() {
    let mut db = AssetDb::open("project", Vec::new());
    let first = ContentHash::of_bytes(b"v1");
    let second = ContentHash::of_bytes(b"v2");
    db.insert(AssetId(5), AssetKind::Material, "paint", first, None);
    let record = db.replace_blob(AssetId(5), second).expect("replace");
    assert_eq!(record.content_hash, second);
    assert_eq!(record.name, "paint");
    assert_eq!(db.get(AssetId(5)).map(|r| r.content_hash), Some(second));
    assert!(db.replace_blob(AssetId(6), second).is_err());
    assert_eq!(db.blobs().root_dir(), "project/assets/blobs");
}

const GSPLAT_HEADER: &str = "ply\nformat ascii 1.0\nelement vertex 1\nproperty float x\nproperty float y\nproperty float z\nproperty float f_dc_0\nproperty float f_dc_1\nproperty float f_dc_2\nproperty float opacity\nproperty float scale_0\nproperty float scale_1\nproperty float scale_2\nproperty float rot_0\nproperty float rot_1\nproperty float rot_2\nproperty float rot_3\nend_header\n";

#[test]
fn detects_gsplat_header_before_binary_body() {
    let mut ply = b"ply\nformat binary_little_endian 1.0\nelement vertex 1\nproperty float f_dc_0\nproperty float opacity\nproperty float scale_0\nproperty float rot_0\nend_header\n".to_vec();
    ply.extend_from_slice(&[0xFF, 0xFE, 0x80, 0x00]);
    assert!(looks_like_gsplat_ply(&ply));
}

#[test]
fn header_scan_stops_at_marker() {
    let ply = b"ply\nproperty float f_dc_0\nend_header\nopacity scale_0 rot_0\n";
    assert!(!looks_like_gsplat_ply(ply));
}

#[test]
fn header_scan_without_marker_cut_inside_a_character() {
    let text = "a".repeat(4095) + "\u{e9}";
    assert_eq!(text.len(), 4097);
    assert!(!looks_like_gsplat_ply(text.as_bytes()));
}

#[test]
fn gsplat_table_of_minimal_ply() {
    let ply = format!("{}0 0 0 0 0 0 0 0 0 0 0 0 0 1\n", GSPLAT_HEADER);
    let table = gsplat_ply_table_bytes(ply.as_bytes()).expect("table");
    assert_eq!(table.vertex_count, 1);
    assert_eq!(table.columns, (0..14).collect::<Vec<usize>>());
    assert_eq!(table.rows.len(), 1);
    assert_eq!(table.rows[0].len(), 14);
    assert_eq!(table.rows[0][13], "1");
}

#[test]
fn gsplat_short_row_is_invalid() {
    let ply = format!("{}0 0 0\n", GSPLAT_HEADER);
    match gsplat_ply_table_bytes(ply.as_bytes()) {
        Err(ImportError::Invalid(message)) => {
            assert_eq!(message, "vertex row has fewer values than declared properties")
        }
        other => panic!("unexpected {:?}", other),
    }
}

#[test]
fn gsplat_non_utf8_is_invalid() {
    let mut ply = GSPLAT_HEADER.as_bytes().to_vec();
    ply.extend_from_slice(&[0xFF, 0xFE]);
    assert!(matches!(gsplat_ply_table_bytes(&ply), Err(ImportError::Invalid(_))));
}

#[test]
fn gsplat_missing_column_names_it() {
    let ply = "ply\nelement vertex 1\nproperty float x\nproperty float y\nend_header\n0 0\n";
    assert_eq!(
        gsplat_ply_table_bytes(ply.as_bytes()),
        Err(ImportError::Invalid("missing z property".to_string()))
    );
}

fn splat_cell_index(value: f32, min: f32, size: f32, grid: u32) -> u32 {
    if size <= f32::EPSILON {
        return 0;
    }
    (((value - min) / size).floor() as u32).min(grid.saturating_sub(1))
}

fn splat_cells(positions: &[[f32; 3]], target_splats_per_chunk: usize) -> Vec<(u32, u32, u32)> {
    let target = target_splats_per_chunk.max(256);
    let mut min = [f32::INFINITY; 3];
    let mut max = [f32::NEG_INFINITY; 3];
    for p in positions {
        for axis in 0..3 {
            min[axis] = min[axis].min(p[axis]);
            max[axis] = max[axis].max(p[axis]);
        }
    }
    let grid = ((positions.len() as f32 / target as f32).ceil().cbrt().ceil().max(1.0) as u32).max(1);
    let size = [0, 1, 2].map(|axis| (max[axis] - min[axis]) / grid as f32);
    positions
        .iter()
        .map(|p| {
            (
                splat_cell_index(p[0], min[0], size[0], grid),
                splat_cell_index(p[1], min[1], size[1], grid),
                splat_cell_index(p[2], min[2], size[2], grid),
            )
        })
        .collect()
}

#[test]
fn chunking_splits_large_cloud() {
    let positions: Vec<[f32; 3]> = (0..10_000).map(|index| [index as f32 * 0.01, 0.0, 0.0]).collect();
    let parsed = ParsedGaussianSplatCloud {
        positions: positions.iter().map(|p| p.map(f32::to_bits)).collect(),
        rotations: vec![[0.0f32, 0.0, 0.0, 1.0].map(f32::to_bits); 10_000],
        scales: vec![[0.05f32; 3].map(f32::to_bits); 10_000],
        opacities: vec![0.8f32.to_bits(); 10_000],
        colors: vec![[1.0f32; 3].map(f32::to_bits); 10_000],
    };
    let cells = splat_cells(&positions, 2_048);
    let chunks = chunk_by_cells(&parsed, &cells).expect("chunk");
    assert!(chunks.len() > 1);
}

#[test]
fn chunks_keep_every_splat_once() {
    let positions: Vec<[f32; 3]> = (0..10_000).map(|index| [index as f32 * 0.01, 0.0, 0.0]).collect();
    let parsed = ParsedGaussianSplatCloud {
        positions: positions.iter().map(|p| p.map(f32::to_bits)).collect(),
        rotations: vec![[0u32; 4]; 10_000],
        scales: vec![[0u32; 3]; 10_000],
        opacities: (0..10_000u32).collect(),
        colors: vec![[0u32; 3]; 10_000],
    };
    let cells = splat_cells(&positions, 2_048);
    let chunks = chunk_by_cells(&parsed, &cells).expect("chunk");
    let total: usize = chunks.iter().map(|c| c.positions.len()).sum();
    assert_eq!(total, 10_000);
    let mut ids: Vec<u32> = chunks.iter().flat_map(|c| c.opacities.iter().copied()).collect();
    ids.sort();
    assert_eq!(ids, (0..10_000u32).collect::<Vec<u32>>());
}

#[test]
fn chunking_empty_cloud_is_invalid() {
    let parsed = ParsedGaussianSplatCloud {
        positions: Vec::new(),
        rotations: Vec::new(),
        scales: Vec::new(),
        opacities: Vec::new(),
        colors: Vec::new(),
    };
    assert_eq!(
        chunk_by_cells(&parsed, &Vec::new()),
        Err(ImportError::Invalid("gaussian splat cloud has no splats".to_string()))
    );
}

#[test]
fn hex_text_is_lowercase_and_round_trips() {
    let hash = ContentHash::of_bytes(b"abc");
    let text = hash.to_hex();
    assert!(text.chars().all(|c| c.is_ascii_digit() || ('a'..='f').contains(&c)));
    for i in 0..32 {
        assert_eq!(u8::from_str_radix(&text[2 * i..2 * i + 2], 16), Ok(hash.0[i]));
    }
    let canonical = "0123456789abcdef".repeat(4);
    assert_eq!(ContentHash::from_hex(&canonical).expect("hex").to_hex(), canonical);
}

#[test]
fn exported_gsplat_header_is_detected() {
    for count in [1u64, 42, 1_000_000] {
        let mut bytes = create3d::ply_export::gsplat_header_text(count).into_bytes();
        bytes.extend_from_slice(&[0xFF, 0x00, 0x80]);
        assert!(looks_like_gsplat_ply(&bytes));
    }
}
