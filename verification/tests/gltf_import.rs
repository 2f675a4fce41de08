use create3d::assetdb::AssetId;
use create3d::gltf_import::{
    import_gltf_bytes, import_gltf_document, import_result_to_scene_operations, MeshBinding, GltfDocument, GltfImage,
    GltfMaterial, GltfMesh, GltfNode, GltfPrimitive, GltfTexture, ImportError, NodeTransform, PixelFormat,
};

fn bits3(v: [f32; 3]) -> [u32; 3] {
    [v[0].to_bits(), v[1].to_bits(), v[2].to_bits()]
}

fn triangle(material: Option<usize>) -> GltfPrimitive {
    GltfPrimitive {
        positions: Some(vec![bits3([0.0, 0.0, 0.0]), bits3([1.0, 0.0, 0.0]), bits3([0.0, 1.0, 0.0])]),
        normals: None,
        uvs: Some(vec![[0, 0], [1.0f32.to_bits(), 0], [0, 1.0f32.to_bits()]]),
        indices: Some(vec![0, 1, 2]),
        material,
    }
}

fn transform() -> NodeTransform {
    NodeTransform { translation: [0; 3], rotation: [0, 0, 0, 1.0f32.to_bits()], scale: [1.0f32.to_bits(); 3] }
}

fn gnode(name: Option<&str>, mesh: Option<usize>, children: Vec<usize>) -> GltfNode {
    GltfNode { name: name.map(str::to_string), transform: transform(), mesh, children }
}

fn document() -> GltfDocument {
    GltfDocument {
        images: vec![GltfImage { format: PixelFormat::R8G8B8A8, pixels: vec![255, 0, 0, 255], width: 1, height: 1 }],
        textures: vec![GltfTexture { name: None, image: 0 }],
        materials: vec![
            GltfMaterial { name: None, base_color: [1.0f32.to_bits(); 4], base_color_texture: Some(0) },
            GltfMaterial { name: Some("paint".to_string()), base_color: [0; 4], base_color_texture: None },
        ],
        meshes: vec![
            GltfMesh { name: None, primitives: vec![triangle(Some(0))] },
            GltfMesh { name: Some("pair".to_string()), primitives: vec![triangle(None), triangle(Some(1))] },
        ],
        nodes: vec![gnode(Some("root"), Some(0), Vec::new())],
        scenes: vec![vec![0]],
        default_scene: Some(0),
    }
}

#[test]
fn imports_document_items_with_names() {
    let result = import_gltf_document(document()).expect("import");
    assert_eq!(result.textures.len(), 1);
    assert_eq!(result.textures[0].name, "texture-0");
    assert_eq!(result.textures[0].mime_type, "image/png");
    assert_eq!(&result.textures[0].bytes[..4], &[137, 80, 78, 71]);

    let material_names: Vec<&str> = result.materials.iter().map(|m| m.name.as_str()).collect();
    assert_eq!(material_names, vec!["material-0", "paint"]);
    assert_eq!(result.materials[0].texture_index, Some(0));
    assert_eq!(result.materials[0].data.version, 1);
    assert_eq!(result.materials[0].data.base_color, [1.0f32.to_bits(); 4]);
    assert_eq!(result.materials[0].data.base_color_texture, None);
    assert!(result.materials[0].data.graph.is_none());

    let mesh_names: Vec<&str> = result.meshes.iter().map(|m| m.name.as_str()).collect();
    assert_eq!(mesh_names, vec!["mesh-0", "pair-primitive-0", "pair-primitive-1"]);
    let materials: Vec<Option<usize>> = result.meshes.iter().map(|m| m.material_index).collect();
    assert_eq!(materials, vec![Some(0), None, Some(1)]);
    assert_eq!(result.meshes[0].data.indices, vec![0, 1, 2]);
    assert!(result.meshes[0].data.normals.is_empty());
    assert_eq!(result.meshes[0].data.uvs.len(), 3);
    assert!(result.meshes[0].data.tangents.is_empty());

    assert_eq!(result.root_nodes.len(), 1);
    assert_eq!(result.root_nodes[0].name.as_deref(), Some("root"));
}

#[test]
fn primitive_without_positions_is_invalid() {
    let mut doc = document();
    doc.meshes[1].primitives[1].positions = None;
    doc.meshes[1].primitives[1].indices = None;
    let err = import_gltf_document(doc).err().expect("error");
    assert_eq!(err, ImportError::Invalid("mesh primitive missing positions".to_string()));
}

#[test]
fn primitive_without_indices_is_invalid() {
    let mut doc = document();
    doc.meshes[0].primitives[0].indices = None;
    let err = import_gltf_document(doc).err().expect("error");
    assert_eq!(err, ImportError::Invalid("mesh primitive missing indices".to_string()));
}

#[test]
fn document_without_scene_is_invalid() {
    let mut doc = document();
    doc.scenes = Vec::new();
    doc.default_scene = None;
    let err = import_gltf_document(doc).err().expect("error");
    assert_eq!(err, ImportError::Invalid("glTF file has no scenes".to_string()));
}

#[test]
fn image_errors_come_before_mesh_errors() {
    let mut doc = document();
    doc.images[0] = GltfImage { format: PixelFormat::R32G32B32FLOAT, pixels: vec![0; 12], width: 1, height: 1 };
    doc.meshes[0].primitives[0].positions = None;
    let err = import_gltf_document(doc).err().expect("error");
    assert_eq!(err, ImportError::Image("unsupported glTF image format: R32G32B32FLOAT".to_string()));
}

#[test]
fn import_creates_entities_parents_first() {
    let mut doc = document();
    doc.nodes = vec![
        gnode(Some("a"), Some(0), vec![1, 2]),
        gnode(Some("b"), Some(1), Vec::new()),
        gnode(None, None, Vec::new()),
        gnode(Some("c"), Some(1), Vec::new()),
    ];
    doc.scenes = vec![vec![0, 3]];
    let result = import_gltf_document(doc).expect("import");
    let mesh_ids = vec![AssetId(100), AssetId(101), AssetId(102)];
    let material_ids = vec![AssetId(200), AssetId(201)];
    let ids = vec![1, 2, 3, 4];
    let ops = import_result_to_scene_operations(&result, &mesh_ids, &material_ids, &ids);
    assert_eq!(ops.len(), 4);
    let entity_ids: Vec<u128> = ops.iter().map(|op| op.entity_id).collect();
    assert_eq!(entity_ids, vec![1, 2, 3, 4]);
    let parents: Vec<Option<u128>> = ops.iter().map(|op| op.parent).collect();
    assert_eq!(parents, vec![None, Some(1), Some(1), None]);
    assert_eq!(ops[0].name.as_deref(), Some("a"));
    assert_eq!(ops[0].mesh, Some(MeshBinding { asset: AssetId(100), submesh: "mesh-0".to_string() }));
    assert_eq!(ops[0].material, Some(AssetId(200)));
    // glTF mesh 1 ("pair") starts at imported mesh 1, its first primitive, which has no material.
    assert_eq!(ops[1].mesh, Some(MeshBinding { asset: AssetId(101), submesh: "pair-primitive-0".to_string() }));
    assert_eq!(ops[1].material, None);
    assert_eq!(ops[2].name, None);
    assert_eq!(ops[2].mesh, None);
    assert_eq!(ops[2].material, None);
    assert_eq!(ops[3].mesh, Some(MeshBinding { asset: AssetId(101), submesh: "pair-primitive-0".to_string() }));
}

#[test]
fn node_mesh_points_at_first_primitive() {
    let mut doc = document();
    doc.meshes = vec![
        GltfMesh { name: Some("two".to_string()), primitives: vec![triangle(None), triangle(None)] },
        GltfMesh { name: Some("one".to_string()), primitives: vec![triangle(None)] },
        GltfMesh { name: Some("none".to_string()), primitives: Vec::new() },
    ];
    doc.nodes = vec![gnode(Some("n"), Some(1), vec![1]), gnode(Some("m"), Some(2), Vec::new())];
    let result = import_gltf_document(doc).expect("import");
    assert_eq!(result.meshes.len(), 3);
    let index = result.root_nodes[0].mesh_index.expect("mesh");
    assert_eq!(index, 2);
    assert_eq!(result.meshes[index].name, "one");
    assert_eq!(result.root_nodes[0].children[0].mesh_index, None);
}

#[test]
fn default_scene_is_chosen_else_first() {
    let mut doc = document();
    doc.nodes = vec![gnode(Some("first"), None, Vec::new()), gnode(Some("second"), None, Vec::new())];
    doc.scenes = vec![vec![0], vec![1]];
    doc.default_scene = Some(1);
    let result = import_gltf_document(doc).expect("import");
    assert_eq!(result.root_nodes[0].name.as_deref(), Some("second"));

    let mut doc = document();
    doc.nodes = vec![gnode(Some("first"), None, Vec::new()), gnode(Some("second"), None, Vec::new())];
    doc.scenes = vec![vec![0], vec![1]];
    doc.default_scene = None;
    let result = import_gltf_document(doc).expect("import");
    assert_eq!(result.root_nodes[0].name.as_deref(), Some("first"));
}

#[test]
fn cyclic_node_hierarchy_is_invalid() {
    let mut doc = document();
    doc.nodes = vec![gnode(Some("a"), None, vec![1]), gnode(Some("b"), None, vec![0])];
    let err = import_gltf_document(doc).err().expect("error");
    assert_eq!(
        err,
        ImportError::Invalid("glTF node hierarchy has a cycle or refers to a missing node or mesh".to_string())
    );
}

#[test]
fn image_of_wrong_size_is_an_image_error() {
    let mut doc = document();
    doc.images[0] = GltfImage { format: PixelFormat::R8G8B8A8, pixels: vec![255, 0, 0, 255], width: 2, height: 2 };
    let err = import_gltf_document(doc).err().expect("error");
    assert_eq!(err, ImportError::Image("glTF image pixel buffer does not match its size".to_string()));
}

fn base64(bytes: &[u8]) -> String {
    const ALPHABET: &[u8] = b"ABCDEFGHIJKLMNOPQRSTUVWXYZabcdefghijklmnopqrstuvwxyz0123456789+/";
    let mut out = String::new();
    for chunk in bytes.chunks(3) {
        let b = [chunk[0], *chunk.get(1).unwrap_or(&0), *chunk.get(2).unwrap_or(&0)];
        let n = (b[0] as u32) << 16 | (b[1] as u32) << 8 | b[2] as u32;
        for k in 0..4 {
            if k <= chunk.len() {
                out.push(ALPHABET[(n >> (18 - 6 * k) & 63) as usize] as char);
            } else {
                out.push('=');
            }
        }
    }
    out
}

fn triangle_gltf() -> String {
    triangle_gltf_with(3, 5123)
}

fn triangle_gltf_with(position_count: usize, index_type: u32) -> String {
    let mut buffer = Vec::new();
    for v in [[0.0f32, 0.0, 0.0], [1.0, 0.0, 0.0], [0.0, 1.0, 0.0]] {
        for x in v {
            buffer.extend_from_slice(&x.to_le_bytes());
        }
    }
    for i in [0u16, 1, 2] {
        buffer.extend_from_slice(&i.to_le_bytes());
    }
    buffer.extend_from_slice(&[0, 0]);
    let primitive = r#"{"attributes":{"POSITION":0},"indices":1}"#;
    format!(
        r#"{{"asset":{{"version":"2.0"}},"buffers":[{{"byteLength":{len},"uri":"data:application/octet-stream;base64,{data}"}}],"bufferViews":[{{"buffer":0,"byteOffset":0,"byteLength":36}},{{"buffer":0,"byteOffset":36,"byteLength":6}}],"accessors":[{{"bufferView":0,"componentType":5126,"count":{pc},"type":"VEC3","min":[0,0,0],"max":[1,1,0]}},{{"bufferView":1,"componentType":{it},"count":3,"type":"SCALAR"}}],"meshes":[{{"name":"two","primitives":[{p},{p}]}},{{"name":"one","primitives":[{p}]}}],"nodes":[{{"name":"n","mesh":1}}],"scenes":[{{"nodes":[0]}}],"scene":0}}"#,
        len = buffer.len(),
        data = base64(&buffer),
        p = primitive,
        pc = position_count,
        it = index_type,
    )
}

#[test]
fn gltf_bytes_import_maps_node_mesh_to_first_primitive() {
    let result = import_gltf_bytes(triangle_gltf().as_bytes()).expect("import");
    assert_eq!(result.meshes.len(), 3);
    let names: Vec<&str> = result.meshes.iter().map(|m| m.name.as_str()).collect();
    assert_eq!(names, vec!["two-primitive-0", "two-primitive-1", "one"]);
    assert_eq!(result.root_nodes.len(), 1);
    assert_eq!(result.root_nodes[0].name.as_deref(), Some("n"));
    let index = result.root_nodes[0].mesh_index.expect("mesh");
    assert_eq!(result.meshes[index].name, "one");
    assert_eq!(result.meshes[index].data.indices, vec![0, 1, 2]);
    assert_eq!(result.meshes[index].data.positions[1], [1.0f32.to_bits(), 0, 0]);
}

#[test]
fn unreadable_gltf_bytes_are_a_gltf_error() {
    assert!(matches!(import_gltf_bytes(b"not a gltf file"), Err(ImportError::Gltf(_))));
}

#[test]
fn relative_buffer_uri_that_is_not_utf8_is_refused() {
    let file = r#"{"asset":{"version":"2.0"},"buffers":[{"uri":"%FF","byteLength":1}]}"#;
    assert_eq!(
        import_gltf_bytes(file.as_bytes()).err(),
        Some(ImportError::Gltf("glTF buffer URI does not percent-decode to UTF-8".to_string()))
    );
}

#[test]
fn relative_buffer_uri_is_an_external_reference() {
    let file = r#"{"asset":{"version":"2.0"},"buffers":[{"uri":"mesh%20data.bin","byteLength":1}]}"#;
    match import_gltf_bytes(file.as_bytes()) {
        Err(ImportError::Gltf(message)) => assert_ne!(message, "glTF buffer URI does not percent-decode to UTF-8"),
        other => panic!("unexpected {:?}", other.map(|r| r.meshes.len())),
    }
}

#[test]
fn image_view_past_its_buffer_is_refused() {
    let file = format!(
        r#"{{"asset":{{"version":"2.0"}},"buffers":[{{"byteLength":4,"uri":"data:application/octet-stream;base64,{}"}}],"bufferViews":[{{"buffer":0,"byteOffset":0,"byteLength":100}}],"images":[{{"bufferView":0,"mimeType":"image/png"}}]}}"#,
        base64(&[1, 2, 3, 4])
    );
    assert_eq!(
        import_gltf_bytes(file.as_bytes()).err(),
        Some(ImportError::Gltf("glTF image lacks its MIME type or URI, or lies outside its buffer".to_string()))
    );
}

#[test]
fn image_view_without_mime_type_is_refused() {
    let file = format!(
        r#"{{"asset":{{"version":"2.0"}},"buffers":[{{"byteLength":4,"uri":"data:application/octet-stream;base64,{}"}}],"bufferViews":[{{"buffer":0,"byteOffset":0,"byteLength":4}}],"images":[{{"bufferView":0}}]}}"#,
        base64(&[1, 2, 3, 4])
    );
    assert_eq!(
        import_gltf_bytes(file.as_bytes()).err(),
        Some(ImportError::Gltf("glTF image lacks its MIME type or URI, or lies outside its buffer".to_string()))
    );
}

#[test]
fn empty_position_accessor_is_refused() {
    assert_eq!(
        import_gltf_bytes(triangle_gltf_with(0, 5123).as_bytes()).err(),
        Some(ImportError::Invalid("glTF primitive accessor cannot be read".to_string()))
    );
}

#[test]
fn float_index_accessor_is_refused() {
    assert_eq!(
        import_gltf_bytes(triangle_gltf_with(3, 5126).as_bytes()).err(),
        Some(ImportError::Invalid("glTF primitive accessor cannot be read".to_string()))
    );
}

#[test]
fn glb_length_below_its_header_is_refused() {
    let mut glb = b"glTF".to_vec();
    glb.extend_from_slice(&2u32.to_le_bytes());
    glb.extend_from_slice(&8u32.to_le_bytes());
    assert_eq!(
        import_gltf_bytes(&glb).err(),
        Some(ImportError::Gltf("GLB header declares a length shorter than the header".to_string()))
    );
}
