use create3d::export::entity_label;
use create3d::mesh::MeshAssetData;
use create3d::usd_export::{usda_snapshot, ExportError, UsdEntity, UsdMesh};

fn triangle() -> MeshAssetData {
    MeshAssetData {
        version: 1,
        positions: vec![[0, 0, 0], [1.0f32.to_bits(), 0, 0], [0, 1.0f32.to_bits(), 0]],
        normals: Vec::new(),
        uvs: Vec::new(),
        tangents: Vec::new(),
        indices: vec![0, 1, 2],
    }
}

fn mesh(data: MeshAssetData) -> UsdMesh {
    UsdMesh {
        data,
        points: "[(0.0, 0.0, 0.0), (1.0, 0.0, 0.0), (0.0, 1.0, 0.0)]".to_string(),
        normals: "[]".to_string(),
        color: "(1.0, 1.0, 1.0)".to_string(),
    }
}

fn entity(label: &str, mesh: Option<Result<UsdMesh, ExportError>>, children: Vec<UsdEntity>) -> UsdEntity {
    UsdEntity {
        label: label.to_string(),
        translate: "(0.0, 0.0, 0.0)".to_string(),
        orient: "(1.0, 0.0, 0.0, 0.0)".to_string(),
        scale: "(1.0, 1.0, 1.0)".to_string(),
        mesh,
        children,
    }
}

const XFORM_LINES: &str = "double3 xformOp:translate = (0.0, 0.0, 0.0)\n";

#[test]
fn writes_mesh_prim_under_scene_root() {
    let roots = vec![entity("Cube", Some(Ok(mesh(triangle()))), Vec::new())];
    let snapshot = usda_snapshot(&roots).expect("export");
    assert_eq!(snapshot.mesh_count, 1);
    assert_eq!(snapshot.prim_count, 1);
    let expected = [
        "#usda 1.0\n",
        "(\n",
        "    defaultPrim = \"Scene\"\n",
        "    doc = \"Create3D mesh snapshot export\"\n",
        "    metersPerUnit = 1\n",
        "    upAxis = \"Y\"\n",
        ")\n\n",
        "def Xform \"Scene\"\n",
        "{\n",
        "    def Xform \"Cube\"\n",
        "    {\n",
        "        double3 xformOp:translate = (0.0, 0.0, 0.0)\n",
        "        quatf xformOp:orient = (1.0, 0.0, 0.0, 0.0)\n",
        "        double3 xformOp:scale = (1.0, 1.0, 1.0)\n",
        "        uniform token[] xformOpOrder = [\"xformOp:translate\", \"xformOp:orient\", \"xformOp:scale\"]\n",
        "\n",
        "        def Mesh \"Geometry\"\n",
        "        {\n",
        "            point3f[] points = [(0.0, 0.0, 0.0), (1.0, 0.0, 0.0), (0.0, 1.0, 0.0)]\n",
        "            int[] faceVertexCounts = [3]\n",
        "            int[] faceVertexIndices = [0, 1, 2]\n",
        "            color3f[] displayColor = [(1.0, 1.0, 1.0)]\n",
        "        }\n",
        "    }\n",
        "}\n",
    ]
    .concat();
    assert_eq!(snapshot.text, expected);
    assert!(snapshot.text.contains(XFORM_LINES));
}

#[test]
fn normals_are_written_when_one_per_point() {
    let mut data = triangle();
    data.normals = vec![[0, 0, 1.0f32.to_bits()]; 3];
    let mut m = mesh(data);
    m.normals = "[(0.0, 0.0, 1.0), (0.0, 0.0, 1.0), (0.0, 0.0, 1.0)]".to_string();
    let snapshot = usda_snapshot(&vec![entity("Lit", Some(Ok(m)), Vec::new())]).expect("export");
    assert!(snapshot.text.contains("normal3f[] normals = [(0.0, 0.0, 1.0), (0.0, 0.0, 1.0), (0.0, 0.0, 1.0)]\n"));
}

#[test]
fn entities_without_meshes_below_are_left_out() {
    let roots = vec![
        entity("Empty", None, vec![entity("AlsoEmpty", None, Vec::new())]),
        entity("Group", None, vec![entity("Leaf", Some(Ok(mesh(triangle()))), Vec::new())]),
    ];
    let snapshot = usda_snapshot(&roots).expect("export");
    assert_eq!(snapshot.prim_count, 2);
    assert_eq!(snapshot.mesh_count, 1);
    assert!(!snapshot.text.contains("Empty"));
    assert!(snapshot.text.contains("    def Xform \"Group\"\n"));
    assert!(snapshot.text.contains("        def Xform \"Leaf\"\n"));
    assert!(snapshot.text.contains("            def Mesh \"Geometry\"\n"));
}

#[test]
fn repeated_labels_get_suffixes_children_first() {
    let roots = vec![entity(
        "Part",
        Some(Ok(mesh(triangle()))),
        vec![entity("Part", Some(Ok(mesh(triangle()))), Vec::new()), entity("1 part", Some(Ok(mesh(triangle()))), Vec::new())],
    )];
    let snapshot = usda_snapshot(&roots).expect("export");
    assert_eq!(snapshot.prim_count, 3);
    // The child is named before its parent.
    assert!(snapshot.text.contains("        def Xform \"Part\"\n"));
    assert!(snapshot.text.contains("        def Xform \"_1_part\"\n"));
    assert!(snapshot.text.contains("    def Xform \"Part_2\"\n"));
}

#[test]
fn scene_without_meshes_is_empty() {
    let roots = vec![entity("Empty", None, Vec::new())];
    assert_eq!(usda_snapshot(&roots), Err(ExportError::EmptyScene));
    assert_eq!(usda_snapshot(&Vec::new()), Err(ExportError::EmptyScene));
}

#[test]
fn invalid_mesh_is_an_asset_error() {
    let mut data = triangle();
    data.indices = vec![0, 1];
    let roots = vec![entity("Broken", Some(Ok(mesh(data))), Vec::new())];
    assert_eq!(
        usda_snapshot(&roots),
        Err(ExportError::Asset("invalid mesh: index count must be a multiple of three".to_string()))
    );
}

#[test]
fn first_loading_error_in_tree_order_is_reported() {
    let roots = vec![entity(
        "Parent",
        Some(Err(ExportError::Asset("parent mesh missing".to_string()))),
        vec![entity("Child", Some(Err(ExportError::Asset("child mesh missing".to_string()))), Vec::new())],
    )];
    assert_eq!(usda_snapshot(&roots), Err(ExportError::Asset("child mesh missing".to_string())));
}

#[test]
fn entity_label_is_name_or_id() {
    assert_eq!(entity_label(&Some("Hero".to_string()), "01J0"), "Hero");
    assert_eq!(entity_label(&None, "01J0"), "01J0");
}
