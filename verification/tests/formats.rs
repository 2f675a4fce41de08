use create3d::bridge::parse_joint_names;
use create3d::glb::{align_offset, glb_container};
use create3d::gltf_import::{encode_gltf_image, item_name, primitive_name, to_rgba8, ImportError, PixelFormat};
use create3d::usd::{format_usda_int_array, sanitize_prim_name, NameRegistry};

#[test]
fn prim_names_are_sanitized() {
    assert_eq!(sanitize_prim_name("Hero Mesh"), "Hero_Mesh");
    assert_eq!(sanitize_prim_name("1abc"), "_1abc");
    assert_eq!(sanitize_prim_name(""), "Prim");
    assert_eq!(sanitize_prim_name("é-x"), "__x");
}

#[test]
fn name_registry_hands_out_fresh_names() {
    let mut names = NameRegistry::new();
    assert_eq!(names.unique("Cube".to_string()), "Cube");
    assert_eq!(names.unique("Cube".to_string()), "Cube_2");
    assert_eq!(names.unique("Cube".to_string()), "Cube_3");
    assert_eq!(names.unique("Cube_2".to_string()), "Cube_2_2");
    assert_eq!(names.unique("a b".to_string()), "a_b");
}

#[test]
fn usda_int_arrays() {
    assert_eq!(format_usda_int_array(&[0, 1, 2]), "[0, 1, 2]");
    assert_eq!(format_usda_int_array(&[]), "[]");
    assert_eq!(format_usda_int_array(&[4294967295]), "[4294967295]");
}

#[test]
fn buffers_align_to_four_bytes() {
    let mut buffer = vec![1u8, 2, 3, 4, 5];
    assert_eq!(align_offset(&mut buffer), 8);
    assert_eq!(buffer, vec![1, 2, 3, 4, 5, 0, 0, 0]);
    let mut aligned = vec![9u8; 4];
    assert_eq!(align_offset(&mut aligned), 4);
}

#[test]
fn glb_container_layout() {
    let out = glb_container(&b"{}".to_vec(), &vec![7u8]);
    assert_eq!(out.len(), 36);
    assert_eq!(&out[0..4], b"glTF");
    assert_eq!(u32::from_le_bytes([out[4], out[5], out[6], out[7]]), 2);
    assert_eq!(u32::from_le_bytes([out[8], out[9], out[10], out[11]]), 36);
    assert_eq!(u32::from_le_bytes([out[12], out[13], out[14], out[15]]), 4);
    assert_eq!(&out[16..20], b"JSON");
    assert_eq!(&out[20..24], b"{}  ");
    assert_eq!(u32::from_le_bytes([out[24], out[25], out[26], out[27]]), 4);
    assert_eq!(&out[28..32], b"BIN\0");
    assert_eq!(&out[32..36], &[7, 0, 0, 0]);
}

#[test]
fn joint_names_are_trimmed_and_nonempty() {
    assert_eq!(
        parse_joint_names(" shoulder, elbow ,,wrist "),
        vec!["shoulder".to_string(), "elbow".to_string(), "wrist".to_string()]
    );
    assert!(parse_joint_names(" , ").is_empty());
}

#[test]
fn imported_item_names() {
    assert_eq!(item_name(None, "texture", 3), "texture-3");
    assert_eq!(item_name(Some("Albedo"), "texture", 3), "Albedo");
    assert_eq!(primitive_name("Robot", 2, 1), "Robot-primitive-1");
    assert_eq!(primitive_name("Robot", 1, 0), "Robot");
}

#[test]
fn rgb_pixels_gain_opaque_alpha() {
    let rgba = to_rgba8(PixelFormat::R8G8B8, &vec![1, 2, 3, 4, 5, 6, 7]);
    assert_eq!(rgba, Some(vec![1, 2, 3, 255, 4, 5, 6, 255]));
}

#[test]
fn gray_pixels_spread_over_color_channels() {
    let rgba = to_rgba8(PixelFormat::R8, &vec![9, 200]);
    assert_eq!(rgba, Some(vec![9, 9, 9, 255, 200, 200, 200, 255]));
    assert_eq!(to_rgba8(PixelFormat::R8G8B8A8, &vec![1, 2, 3, 4]), Some(vec![1, 2, 3, 4]));
    assert_eq!(to_rgba8(PixelFormat::R16, &vec![1, 2]), None);
}

#[test]
fn unsupported_image_format_is_an_image_error() {
    let r = encode_gltf_image(PixelFormat::R16G16B16, &vec![0; 6], 1, 1);
    assert_eq!(r, Err(ImportError::Image("unsupported glTF image format: R16G16B16".to_string())));
}

#[test]
fn images_are_reencoded_as_png() {
    let (bytes, mime) = encode_gltf_image(PixelFormat::R8G8B8, &vec![255, 0, 0, 0, 255, 0], 2, 1).expect("png");
    assert_eq!(mime, "image/png");
    assert_eq!(&bytes[..8], &[137, 80, 78, 71, 13, 10, 26, 10]);
    assert!(bytes.len() > 8);
}
