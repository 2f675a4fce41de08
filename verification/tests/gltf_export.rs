use create3d::assetdb::AssetId;
use create3d::export::TextureExportData;
use create3d::glb_builder::{AccessorKind, ComponentType, ExportError, GlbBuilder, MaterialKind};
use create3d::material::MaterialAssetData;
use create3d::mesh::MeshAssetData;
use create3d::gltf_export::{
    build_scene_glb, collect_entity_point_cloud, EntityContent, GltfEntity, GrayChunk, MeshExport, PointsExport,
};
use create3d::gltf_json::glb_json_text;
use create3d::pointcloud::PointCloudChunkPayload;

fn bits3(v: [f32; 3]) -> [u32; 3] {
    v.map(f32::to_bits)
}

fn triangle() -> MeshAssetData {
    MeshAssetData {
        version: 1,
        positions: vec![bits3([0.0, 0.0, 0.0]), bits3([1.0, 0.0, 0.0]), bits3([0.0, 1.0, 0.0])],
        normals: Vec::new(),
        uvs: Vec::new(),
        tangents: Vec::new(),
        indices: vec![0, 1, 2],
    }
}

fn plain_material(texture: Option<AssetId>) -> MaterialAssetData {
    MaterialAssetData {
        version: 1,
        base_color: [0.5f32.to_bits(); 4],
        base_color_texture: texture,
        graph: None,
    }
}

#[test]
fn mesh_buffers_and_records() {
    let mut b = GlbBuilder::new();
    let mesh = triangle();
    let index = b
        .add_mesh("tri".to_string(), &mesh, &plain_material(None), None, None)
        .expect("add mesh");
    assert_eq!(index, 0);
    assert_eq!(b.bin().len(), 48);
    assert_eq!(&b.bin()[12..16], &1.0f32.to_bits().to_le_bytes());
    assert_eq!(&b.bin()[36..40], &0u32.to_le_bytes());
    assert_eq!(&b.bin()[44..48], &2u32.to_le_bytes());
    let views = b.buffer_views();
    assert_eq!((views[0].offset, views[0].length), (0, 36));
    assert_eq!((views[1].offset, views[1].length), (36, 12));
    let accessors = b.accessors();
    assert_eq!(accessors.len(), 2);
    assert_eq!(accessors[0].kind, AccessorKind::Vec3);
    assert_eq!(accessors[1].component_type, ComponentType::UnsignedInt);
    assert_eq!(b.meshes()[0].primitive.indices, Some(1));
    assert_eq!(b.materials()[0].name, "material-0");
    assert_eq!(b.materials()[0].kind, MaterialKind::Surface);
    assert_eq!(b.counts(), (0, 1, 0, 0, 0));
}

#[test]
fn textures_are_embedded_once() {
    let mut b = GlbBuilder::new();
    let id = AssetId(42);
    assert!(!b.has_texture(id));
    let data = TextureExportData { bytes: vec![1, 2, 3, 4, 5], mime_type: "image/png".to_string() };
    b.add_mesh("a".to_string(), &triangle(), &plain_material(Some(id)), None, Some(data))
        .unwrap();
    assert!(b.has_texture(id));
    b.add_mesh("b".to_string(), &triangle(), &plain_material(Some(id)), None, None)
        .unwrap();
    assert_eq!(b.images().len(), 1);
    assert_eq!(b.textures().len(), 1);
    assert!(b.has_sampler());
    assert_eq!(b.materials()[1].texture, Some(0));
    assert_eq!(b.counts().4, 1);
    let image_view = b.buffer_views()[b.images()[0].buffer_view];
    assert_eq!(image_view.offset % 4, 0);
    assert_eq!(image_view.length, 5);
}

#[test]
fn point_clouds_and_nodes() {
    let mut b = GlbBuilder::new();
    let positions = vec![bits3([0.0, 0.0, 0.0]), bits3([2.0, 0.0, 0.0])];
    let colors = vec![[255u8, 0, 0], [0, 255, 0]];
    let mesh = b
        .add_point_cloud("pc".to_string(), &positions, &colors, true, None)
        .unwrap();
    assert_eq!(b.bin().len(), 24 + 6);
    assert!(b.accessors()[1].normalized);
    assert!(b.meshes()[0].primitive.points);
    assert_eq!(b.materials()[0].name, "point-cloud-material-0");
    let node = b.add_node("root".to_string(), [0; 10], Some(mesh), Vec::new());
    assert_eq!(node, 0);
    assert_eq!(b.counts(), (1, 0, 1, 2, 0));
}

#[test]
fn invalid_meshes_are_rejected() {
    let mut b = GlbBuilder::new();
    let mut mesh = triangle();
    mesh.positions.clear();
    mesh.indices.clear();
    let err = b.add_mesh("x".to_string(), &mesh, &plain_material(None), None, None).unwrap_err();
    assert_eq!(err, ExportError::Asset("invalid mesh: mesh has no positions".to_string()));
    assert_eq!(b.bin().len(), 0);
}

const IDENTITY: [u32; 10] = [0, 0, 0, 0, 0, 0, 0x3f80_0000, 0x3f80_0000, 0x3f80_0000, 0x3f80_0000];

fn tree_entity(label: &str, content: EntityContent, children: Vec<GltfEntity>) -> GltfEntity {
    GltfEntity { label: label.to_string(), transform: IDENTITY, content, children }
}

fn mesh_content(texture_id: Option<AssetId>, texture: Option<Result<TextureExportData, ExportError>>) -> EntityContent {
    EntityContent::Mesh(Ok(MeshExport { mesh: triangle(), material: plain_material(texture_id), bounds: None, texture }))
}

fn png() -> TextureExportData {
    TextureExportData { bytes: vec![1, 2, 3, 4], mime_type: "image/png".to_string() }
}

#[test]
fn scene_tree_adds_children_before_parents() {
    let points = PointsExport {
        positions: vec![bits3([0.0, 0.0, 0.0]), bits3([1.0, 1.0, 1.0])],
        colors: vec![[255, 0, 0], [0, 255, 0]],
        include_color: true,
        bounds: None,
    };
    let roots = vec![
        tree_entity(
            "root",
            mesh_content(None, None),
            vec![
                tree_entity("cloud", EntityContent::PointCloud(Ok(Some(points))), Vec::new()),
                tree_entity("empty", EntityContent::Nothing, Vec::new()),
            ],
        ),
        tree_entity("nothing", EntityContent::PointCloud(Ok(None)), Vec::new()),
    ];
    let (builder, root_nodes) = build_scene_glb(&roots).expect("export");
    assert_eq!(root_nodes, vec![1]);
    let nodes = builder.nodes();
    assert_eq!(nodes.len(), 2);
    assert_eq!(nodes[0].name, "cloud");
    assert_eq!(nodes[0].mesh, Some(0));
    assert_eq!(nodes[1].name, "root");
    assert_eq!(nodes[1].mesh, Some(1));
    assert_eq!(nodes[1].children, vec![0]);
    assert!(builder.meshes()[0].primitive.points);
    assert!(!builder.meshes()[1].primitive.points);
    assert_eq!(builder.counts(), (2, 1, 1, 2, 0));
}

#[test]
fn texture_is_loaded_only_when_not_embedded() {
    let id = AssetId(7);
    let roots = vec![
        tree_entity("a", mesh_content(Some(id), Some(Ok(png()))), Vec::new()),
        tree_entity("b", mesh_content(Some(id), Some(Err(ExportError::Asset("texture missing".to_string())))), Vec::new()),
    ];
    let (builder, _) = build_scene_glb(&roots).expect("second mesh reuses the texture");
    assert_eq!(builder.counts().4, 1);
    assert_eq!(builder.materials()[1].texture, Some(0));

    let roots = vec![tree_entity(
        "b",
        mesh_content(Some(id), Some(Err(ExportError::Asset("texture missing".to_string())))),
        Vec::new(),
    )];
    assert_eq!(build_scene_glb(&roots).err(), Some(ExportError::Asset("texture missing".to_string())));
}

#[test]
fn mesh_check_comes_before_texture_loading() {
    let mut mesh = triangle();
    mesh.indices = vec![0, 1];
    let content = EntityContent::Mesh(Ok(MeshExport {
        mesh,
        material: plain_material(Some(AssetId(9))),
        bounds: None,
        texture: Some(Err(ExportError::Asset("texture missing".to_string()))),
    }));
    let roots = vec![tree_entity("bad", content, Vec::new())];
    assert_eq!(
        build_scene_glb(&roots).err(),
        Some(ExportError::Asset("invalid mesh: index count must be a multiple of three".to_string()))
    );
}

#[test]
fn scene_without_content_is_empty() {
    let roots = vec![tree_entity("nothing", EntityContent::Nothing, Vec::new())];
    assert_eq!(build_scene_glb(&roots).err(), Some(ExportError::EmptyScene));
}

#[test]
fn point_colors_come_from_rgb_or_intensity() {
    let payload = PointCloudChunkPayload {
        positions: vec![bits3([0.0, 0.0, 0.0]), bits3([1.0, 0.0, 0.0])],
        colors: vec![[9, 9, 9]],
        intensity: Vec::new(),
        classification: Vec::new(),
    };
    let empty = PointCloudChunkPayload { positions: Vec::new(), colors: Vec::new(), intensity: Vec::new(), classification: Vec::new() };
    let chunks = vec![
        Ok(GrayChunk { payload: payload.clone(), gray: vec![10, 20] }),
        Ok(GrayChunk { payload: empty, gray: Vec::new() }),
    ];
    let rgb = collect_entity_point_cloud(true, true, &chunks).expect("collect").expect("points");
    assert_eq!(rgb.colors, vec![[9, 9, 9], [255, 255, 255]]);
    assert!(rgb.include_color);
    let gray = collect_entity_point_cloud(false, true, &chunks).expect("collect").expect("points");
    assert_eq!(gray.colors, vec![[10, 10, 10], [20, 20, 20]]);
    let plain = collect_entity_point_cloud(false, false, &chunks).expect("collect").expect("points");
    assert!(plain.colors.is_empty());
    assert!(!plain.include_color);
    assert_eq!(plain.positions.len(), 2);
    let failed = vec![Ok(GrayChunk { payload, gray: vec![0, 0] }), Err(ExportError::Asset("chunk missing".to_string()))];
    assert_eq!(collect_entity_point_cloud(true, false, &failed), Err(ExportError::Asset("chunk missing".to_string())));
    assert_eq!(collect_entity_point_cloud(true, false, &Vec::new()), Ok(None));
}

#[test]
fn exports_embedded_base_color_texture() {
    let texture_id = AssetId(3);
    let mesh = MeshAssetData {
        version: 1,
        positions: vec![bits3([0.0, 0.0, 0.0]), bits3([1.0, 0.0, 0.0]), bits3([0.0, 1.0, 0.0])],
        normals: Vec::new(),
        uvs: Vec::new(),
        tangents: Vec::new(),
        indices: vec![0, 1, 2],
    };
    let material = MaterialAssetData {
        version: 1,
        base_color: [0.2f32.to_bits(), 0.4f32.to_bits(), 0.8f32.to_bits(), 1.0f32.to_bits()],
        base_color_texture: Some(texture_id),
        graph: None,
    };
    let texture = TextureExportData {
        bytes: vec![
            0x89, 0x50, 0x4E, 0x47, 0x0D, 0x0A, 0x1A, 0x0A, 0x00, 0x00, 0x00, 0x0D, 0x49, 0x48, 0x44, 0x52, 0x00,
            0x00, 0x00, 0x01, 0x00, 0x00, 0x00, 0x01, 0x08, 0x02, 0x00, 0x00, 0x00, 0x90, 0x77, 0x53, 0xDE, 0x00,
            0x00, 0x00, 0x0C, 0x49, 0x44, 0x41, 0x54, 0x08, 0xD7, 0x63, 0xF8, 0xCF, 0xC0, 0x00, 0x00, 0x03, 0x01,
            0x01, 0x00, 0x18, 0xDD, 0x8D, 0xB4, 0x00, 0x00, 0x00, 0x00, 0x49, 0x45, 0x4E, 0x44, 0xAE, 0x42, 0x60,
            0x82,
        ],
        mime_type: "image/png".into(),
    };
    let roots = vec![tree_entity(
        "01J00000000000000000000001",
        EntityContent::Mesh(Ok(MeshExport { mesh, material, bounds: None, texture: Some(Ok(texture)) })),
        Vec::new(),
    )];
    let (builder, _) = build_scene_glb(&roots).expect("export");
    let (_, _, point_cloud_count, _, texture_count) = builder.counts();
    assert_eq!(texture_count, 1);
    assert_eq!(point_cloud_count, 0);
    assert_eq!(builder.textures().len(), 1);
    assert!(builder.materials()[0].texture.is_some());
}

#[test]
fn exports_point_cloud_scene_sample_as_points_primitive() {
    let points = PointsExport {
        positions: vec![bits3([0.0, 0.0, 0.0]), bits3([1.0, 0.5, 0.25]), bits3([2.0, 1.0, 0.5])],
        colors: vec![[255, 0, 0], [0, 255, 0], [0, 0, 255]],
        include_color: true,
        bounds: None,
    };
    let roots = vec![tree_entity("cloud", EntityContent::PointCloud(Ok(Some(points))), Vec::new())];
    let (builder, root_nodes) = build_scene_glb(&roots).expect("export");
    let (_, mesh_count, point_cloud_count, point_count, _) = builder.counts();
    assert_eq!(mesh_count, 0);
    assert!(point_cloud_count >= 1);
    assert!(point_count > 0);
    assert_eq!(root_nodes, vec![0]);
    let primitive = &builder.meshes()[0].primitive;
    assert!(primitive.points);
    assert!(primitive.color.is_some());
    assert!(primitive.indices.is_none());
}

fn number_texts(bits: &[u32]) -> Vec<String> {
    bits.iter().map(|b| serde_json::Value::from(f32::from_bits(*b)).to_string()).collect()
}

fn document_text(builder: &GlbBuilder, roots: &[usize]) -> String {
    let mins: Vec<Vec<String>> =
        builder.accessors().iter().map(|a| a.min.map(|m| number_texts(&m)).unwrap_or_default()).collect();
    let maxs: Vec<Vec<String>> =
        builder.accessors().iter().map(|a| a.max.map(|m| number_texts(&m)).unwrap_or_default()).collect();
    let colors: Vec<Vec<String>> = builder.materials().iter().map(|m| number_texts(&m.base_color)).collect();
    let transforms: Vec<Vec<String>> = builder.nodes().iter().map(|n| number_texts(&n.transform)).collect();
    glb_json_text(builder, &roots.to_vec(), &mins, &maxs, &colors, &transforms)
}

#[test]
fn gltf_json_is_canonical_compact_json() {
    let points = PointsExport {
        positions: vec![bits3([0.0, 0.0, 0.0]), bits3([1.0, 1.0, 1.0])],
        colors: vec![[255, 0, 0], [0, 255, 0]],
        include_color: true,
        bounds: Some((bits3([0.0, 0.0, 0.0]), bits3([1.0, 1.0, 1.0]))),
    };
    let roots = vec![tree_entity(
        "root \"quoted\"\n",
        mesh_content(Some(AssetId(9)), Some(Ok(png()))),
        vec![tree_entity("cloud", EntityContent::PointCloud(Ok(Some(points))), Vec::new())],
    )];
    let (builder, root_nodes) = build_scene_glb(&roots).expect("export");
    let text = document_text(&builder, &root_nodes);
    let value: serde_json::Value = serde_json::from_str(&text).expect("valid json");
    assert_eq!(serde_json::to_string(&value).unwrap(), text);
    assert_eq!(value["asset"]["generator"], "Create3D");
    assert_eq!(value["scene"], 0);
    assert_eq!(value["scenes"][0]["nodes"], serde_json::Value::from(root_nodes.clone()));
    assert_eq!(value["nodes"][1]["name"], "root \"quoted\"\n");
    assert_eq!(value["nodes"][1]["children"], serde_json::Value::from(vec![0]));
    assert_eq!(value["meshes"][0]["primitives"][0]["mode"], 0);
    assert!(value["meshes"][0]["primitives"][0]["attributes"]["COLOR_0"].is_number());
    assert!(value["meshes"][1]["primitives"][0].get("mode").is_none());
    assert_eq!(value["materials"][0]["pbrMetallicRoughness"]["roughnessFactor"], 1.0);
    assert_eq!(value["materials"][1]["pbrMetallicRoughness"]["roughnessFactor"], 0.9);
    assert_eq!(value["materials"][1]["pbrMetallicRoughness"]["baseColorTexture"]["index"], 0);
    assert_eq!(value["samplers"][0]["magFilter"], 9729);
    assert_eq!(value["textures"][0]["source"], 0);
    assert_eq!(value["images"][0]["mimeType"], "image/png");
    assert_eq!(value["buffers"][0]["byteLength"], builder.bin().len());
    assert_eq!(value["accessors"][0]["max"], serde_json::Value::from(vec![1.0, 1.0, 1.0]));
}

#[test]
fn gltf_json_without_images_has_no_texture_tables() {
    let roots = vec![tree_entity("solo", mesh_content(None, None), Vec::new())];
    let (builder, root_nodes) = build_scene_glb(&roots).expect("export");
    let text = document_text(&builder, &root_nodes);
    let value: serde_json::Value = serde_json::from_str(&text).expect("valid json");
    assert!(value.get("images").is_none());
    assert!(value.get("samplers").is_none());
    assert!(value.get("textures").is_none());
    assert!(text.starts_with("{\"accessors\":["));
}
