use create3d::collada::{collada_document, import_collada_nodes, parse_usizes, FloatToken, ImportError};
use create3d::mesh::MeshAssetData;
use create3d::xml::XmlNode;

const TRIANGLE_DAE: &str = r##"<?xml version="1.0" encoding="UTF-8"?>
<COLLADA xmlns="http://www.collada.org/2005/11/COLLADASchema" version="1.4.1">
  <library_geometries>
    <geometry id="mesh" name="mesh">
      <mesh>
        <source id="mesh-positions">
          <float_array id="mesh-positions-array" count="9">0 0 0 1 0 0 0 1 0</float_array>
          <technique_common>
            <accessor source="#mesh-positions-array" count="3" stride="3">
              <param name="X" type="float"/>
              <param name="Y" type="float"/>
              <param name="Z" type="float"/>
            </accessor>
          </technique_common>
        </source>
        <vertices id="mesh-vertices">
          <input semantic="POSITION" source="#mesh-positions"/>
        </vertices>
        <triangles count="1">
          <input semantic="VERTEX" source="#mesh-vertices" offset="0"/>
          <p>0 1 2</p>
        </triangles>
      </mesh>
    </geometry>
  </library_geometries>
</COLLADA>"##;

fn float_table(nodes: &[XmlNode]) -> Vec<Vec<FloatToken>> {
    nodes
        .iter()
        .map(|node| match &node.text {
            Some(text) => text
                .split_whitespace()
                .map(|token| {
                    token
                        .parse::<f32>()
                        .map(f32::to_bits)
                        .map_err(|err| err.to_string())
                })
                .collect(),
            None => Vec::new(),
        })
        .collect()
}

fn import(dae: &str) -> Result<MeshAssetData, ImportError> {
    let nodes = collada_document(dae.as_bytes())?;
    let floats = float_table(&nodes);
    import_collada_nodes(&nodes, &floats)
}

fn invalid(dae: &str) -> String {
    match import(dae) {
        Err(ImportError::Invalid(message)) => message,
        other => panic!("expected an invalid collada error, got {other:?}"),
    }
}

#[test]
fn imports_collada_triangle_mesh() {
    let mesh = import(TRIANGLE_DAE).expect("import collada");
    assert_eq!(mesh.positions.len(), 3);
    assert_eq!(mesh.indices, vec![0, 1, 2]);
    assert_eq!(
        mesh.positions[1],
        [1.0f32.to_bits(), 0.0f32.to_bits(), 0.0f32.to_bits()]
    );
}

#[test]
fn imports_collada_polylist_mesh() {
    let dae = r##"<?xml version="1.0" encoding="UTF-8"?>
<COLLADA xmlns="http://www.collada.org/2005/11/COLLADASchema" version="1.4.1">
  <library_geometries>
    <geometry id="mesh">
      <mesh>
        <source id="positions">
          <float_array id="positions-array" count="9">0 0 0 1 0 0 0 1 0</float_array>
          <technique_common>
            <accessor source="#positions-array" count="3" stride="3"/>
          </technique_common>
        </source>
        <vertices id="vertices">
          <input semantic="POSITION" source="#positions"/>
        </vertices>
        <polylist count="1">
          <input semantic="VERTEX" source="#vertices" offset="0"/>
          <vcount>3</vcount>
          <p>0 1 2</p>
        </polylist>
      </mesh>
    </geometry>
  </library_geometries>
</COLLADA>"##;
    let mesh = import(dae).expect("import polylist");
    assert_eq!(mesh.positions.len(), 3);
    assert_eq!(mesh.indices.len(), 3);
}

#[test]
fn reads_normals_and_texcoords_through_inputs() {
    let dae = r##"<COLLADA><library_geometries><geometry><mesh>
        <source id="p"><float_array>0 0 0 1 0 0 0 1 0</float_array><accessor stride="3"/></source>
        <source id="n"><float_array>0 0 1</float_array><accessor stride="3"/></source>
        <source id="t"><float_array>0 0 1 0 0 1</float_array><accessor stride="2"/></source>
        <vertices><input semantic="POSITION" source="#p"/></vertices>
        <triangles count="1">
          <input semantic="VERTEX" source="#v" offset="0"/>
          <input semantic="NORMAL" source="#n" offset="1"/>
          <input semantic="TEXCOORD" source="#t" offset="2"/>
          <p>0 0 0 1 0 1 2 0 2</p>
        </triangles>
    </mesh></geometry></library_geometries></COLLADA>"##;
    let mesh = import(dae).expect("import");
    assert_eq!(mesh.indices, vec![0, 1, 2]);
    assert_eq!(mesh.normals.len(), 3);
    assert_eq!(mesh.uvs[2], [0.0f32.to_bits(), 1.0f32.to_bits()]);
    assert_eq!(mesh.positions[2], [0.0f32.to_bits(), 1.0f32.to_bits(), 0.0f32.to_bits()]);
}

#[test]
fn reports_each_kind_of_invalid_document() {
    assert!(invalid("\u{0}").starts_with("collada xml parse error: "));
    assert_eq!(invalid("<scene/>"), "missing COLLADA root element");
    assert_eq!(invalid("<COLLADA/>"), "collada contains no triangle mesh geometry");
    assert_eq!(
        invalid("<COLLADA><library_geometries><geometry><mesh/></geometry></library_geometries></COLLADA>"),
        "collada mesh missing vertices element"
    );
    assert_eq!(
        invalid("<COLLADA><library_geometries><geometry><mesh><source id=\"p\"><float_array>0 x</float_array></source></mesh></geometry></library_geometries></COLLADA>"),
        "invalid collada float `x`: invalid float literal"
    );
    assert_eq!(
        invalid("<COLLADA><library_geometries><geometry><mesh><vertices><input semantic=\"POSITION\" source=\"#q\"/></vertices></mesh></geometry></library_geometries></COLLADA>"),
        "collada position source `q` not found"
    );
    let base = "<COLLADA><library_geometries><geometry><mesh><source id=\"p\"><float_array>0 0 0 1 0 0 0 1 0</float_array><accessor stride=\"3\"/></source><vertices><input semantic=\"POSITION\" source=\"#p\"/></vertices>";
    let end = "</mesh></geometry></library_geometries></COLLADA>";
    assert_eq!(
        invalid(&format!("{base}<polylist><input semantic=\"VERTEX\" source=\"#v\" offset=\"0\"/><vcount>4</vcount><p>0 1 2 0</p></polylist>{end}")),
        "collada polylist face with 4 vertices is not supported in v0"
    );
    assert_eq!(
        invalid(&format!("{base}<triangles count=\"2\"><input semantic=\"VERTEX\" source=\"#v\" offset=\"0\"/><p>0 1 2</p></triangles>{end}")),
        "collada primitive index data truncated"
    );
    assert_eq!(
        invalid(&format!("{base}<triangles count=\"1\"><input semantic=\"VERTEX\" source=\"#v\" offset=\"0\"/><p>0 1 9</p></triangles>{end}")),
        "collada source `p` index 9 out of range"
    );
    assert_eq!(
        invalid(&format!("{base}<triangles count=\"1\"><p>0 1 2</p></triangles>{end}")),
        "collada primitive has no inputs"
    );
    assert_eq!(
        invalid(&format!("{base}<triangles count=\"1\"><input semantic=\"VERTEX\" source=\"#v\" offset=\"0\"/></triangles>{end}")),
        "collada primitive missing index data"
    );
    assert_eq!(
        invalid(&format!("{base}<triangles count=\"1\"><input semantic=\"VERTEX\" source=\"#v\" offset=\"1\"/><p>0 1 2</p></triangles>{end}")),
        "collada primitive index count is not a multiple of input stride"
    );
}

#[test]
fn rejects_bytes_that_are_not_utf8() {
    match collada_document(&[0x3c, 0xff, 0x3e]) {
        Err(ImportError::Invalid(message)) => {
            assert!(message.starts_with("collada is not valid UTF-8: "));
            assert!(message.len() > "collada is not valid UTF-8: ".len());
        }
        Err(other) => panic!("unexpected error {other:?}"),
        Ok(_) => panic!("expected an error"),
    }
}

#[test]
fn xml_nodes_follow_document_order() {
    let nodes = collada_document(b"<a x='1'><b>t</b><c/></a>").expect("parse");
    let names: Vec<&str> = nodes.iter().filter(|n| n.element).map(|n| n.name.as_str()).collect();
    assert_eq!(names, vec!["a", "b", "c"]);
    let b = nodes.iter().position(|n| n.name == "b").unwrap();
    assert_eq!(nodes[b].text.as_deref(), Some("t"));
    let a = nodes.iter().position(|n| n.name == "a").unwrap();
    assert_eq!(nodes[b].parent, Some(a));
    assert_eq!(nodes[a].attributes[0].value, "1");
}

#[test]
fn parses_index_lists() {
    assert_eq!(parse_usizes(" 1 2\n3 ").unwrap(), vec![1, 2, 3]);
    assert_eq!(
        parse_usizes("1 2 x").unwrap_err(),
        "invalid collada integer `x`: invalid digit found in string"
    );
    assert_eq!(
        parse_usizes("99999999999999999999999").unwrap_err(),
        "invalid collada integer `99999999999999999999999`: number too large to fit in target type"
    );
}
