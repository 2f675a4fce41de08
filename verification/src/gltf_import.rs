//! glTF import: a document's textures (re-encoded as PNG), materials and
//! mesh primitives imported and named, and the entities created for its nodes.
use vstd::prelude::*;

use crate::assetdb::AssetId;
use crate::gltf_layout::{
    buffers_loadable, buffers_loadable_exec, glb_length_underflows, glb_length_underflows_exec, gltf_layout,
    images_loadable, images_loadable_exec, primitives_readable, primitives_readable_exec, read_layout,
};
use crate::material::{MaterialAssetData, MaterialModel};
use crate::mesh::MeshAssetData;
use crate::text::{decimal, decimal_string, push_str};
use gltf::image::Format;
use image::ImageEncoder;

verus! {

/// glTF import error type.
#[derive(Debug, Clone, PartialEq, Eq)]
pub enum ImportError {
    /// Source file could not be read.
    Io(String),
    /// glTF parsing failed.
    Gltf(String),
    /// Imported content was invalid.
    Invalid(String),
    /// Image decoding failed.
    Image(String),
}

/// Imported texture bytes prior to AssetDB insertion.
#[derive(Debug, Clone, PartialEq, Eq)]
pub struct ImportedTexture {
    /// Debug name.
    pub name: String,
    /// Encoded image bytes.
    pub bytes: Vec<u8>,
    /// MIME type when known.
    pub mime_type: String,
}

/// The name of an imported item: its own, or `{kind}-{index}`.
pub open spec fn item_name_spec(name: Option<Seq<char>>, kind: Seq<char>, index: nat) -> Seq<char> {
    match name {
        Some(n) => n,
        None => kind + "-"@ + decimal(index),
    }
}

/// The name of an imported item (texture, material or mesh): its own name,
/// or `{kind}-{index}` when it has none.
pub fn item_name(name: Option<&str>, kind: &str, index: usize) -> (r: String)
    ensures
        r@ == item_name_spec(
            match name {
                Some(n) => Some(n@),
                None => None,
            },
            kind@,
            index as nat,
        ),
{
    match name {
        Some(n) => n.to_owned(),
        None => {
            let mut r = kind.to_owned();
            push_str(&mut r, "-");
            let d = decimal_string(index as u64);
            push_str(&mut r, d.as_str());
            r
        },
    }
}

/// The name of one primitive of a mesh: the mesh name when the mesh has a
/// single primitive, else `{mesh}-primitive-{index}`.
pub open spec fn primitive_name_spec(mesh: Seq<char>, count: nat, index: nat) -> Seq<char> {
    if count > 1 {
        mesh + "-primitive-"@ + decimal(index)
    } else {
        mesh
    }
}

/// The name of primitive `index` of a mesh with `count` primitives.
pub fn primitive_name(mesh: &str, count: usize, index: usize) -> (r: String)
    ensures
        r@ == primitive_name_spec(mesh@, count as nat, index as nat),
{
    let mut r = mesh.to_owned();
    if count > 1 {
        push_str(&mut r, "-primitive-");
        let d = decimal_string(index as u64);
        push_str(&mut r, d.as_str());
    }
    r
}

/// Pixel layout of a decoded glTF image (8 bits per channel unless named
/// otherwise).
#[derive(Debug, Clone, Copy, PartialEq, Eq)]
pub enum PixelFormat {
    /// Red only.
    R8,
    /// Red, green.
    R8G8,
    /// Red, green, blue.
    R8G8B8,
    /// Red, green, blue, alpha.
    R8G8B8A8,
    /// Red only (16 bits).
    R16,
    /// Red, green (16 bits).
    R16G16,
    /// Red, green, blue (16 bits).
    R16G16B16,
    /// Red, green, blue, alpha (16 bits).
    R16G16B16A16,
    /// Red, green, blue (32 bits float).
    R32G32B32FLOAT,
    /// Red, green, blue, alpha (32 bits float).
    R32G32B32A32FLOAT,
}

/// The variant's name, as `Debug` writes it.
pub open spec fn format_name(format: PixelFormat) -> Seq<char> {
    match format {
        PixelFormat::R8 => "R8"@,
        PixelFormat::R8G8 => "R8G8"@,
        PixelFormat::R8G8B8 => "R8G8B8"@,
        PixelFormat::R8G8B8A8 => "R8G8B8A8"@,
        PixelFormat::R16 => "R16"@,
        PixelFormat::R16G16 => "R16G16"@,
        PixelFormat::R16G16B16 => "R16G16B16"@,
        PixelFormat::R16G16B16A16 => "R16G16B16A16"@,
        PixelFormat::R32G32B32FLOAT => "R32G32B32FLOAT"@,
        PixelFormat::R32G32B32A32FLOAT => "R32G32B32A32FLOAT"@,
    }
}

/// The first `k` RGB pixels of `p`, each with an opaque alpha byte added.
pub open spec fn rgb_to_rgba(p: Seq<u8>, k: nat) -> Seq<u8>
    decreases k,
{
    if k == 0 {
        Seq::empty()
    } else {
        let i = 3 * (k - 1);
        rgb_to_rgba(p, (k - 1) as nat) + seq![p[i], p[i + 1], p[i + 2], 255u8]
    }
}

/// The first `k` gray values of `p` as opaque RGBA pixels.
pub open spec fn gray_to_rgba(p: Seq<u8>, k: nat) -> Seq<u8>
    decreases k,
{
    if k == 0 {
        Seq::empty()
    } else {
        let v = p[k - 1];
        gray_to_rgba(p, (k - 1) as nat) + seq![v, v, v, 255u8]
    }
}

/// The pixels as 8-bit RGBA, for the formats that convert to it: RGBA as
/// is, whole RGB pixels with opaque alpha, gray values spread over the
/// color channels with opaque alpha.
pub open spec fn rgba8_pixels(format: PixelFormat, pixels: Seq<u8>) -> Option<Seq<u8>> {
    match format {
        PixelFormat::R8G8B8A8 => Some(pixels),
        PixelFormat::R8G8B8 => Some(rgb_to_rgba(pixels, pixels.len() / 3)),
        PixelFormat::R8 => Some(gray_to_rgba(pixels, pixels.len())),
        _ => None,
    }
}

/// The pixels of a decoded glTF image as 8-bit RGBA, when its format
/// converts to it.
pub fn to_rgba8(format: PixelFormat, pixels: &Vec<u8>) -> (r: Option<Vec<u8>>)
    ensures
        match r {
            Some(v) => rgba8_pixels(format, pixels@) == Some(v@),
            None => rgba8_pixels(format, pixels@) is None,
        },
{
    match format {
        PixelFormat::R8G8B8A8 => Some(pixels.clone()),
        PixelFormat::R8G8B8 => {
            let n = pixels.len() / 3;
            assert(3 * n <= pixels.len()) by (nonlinear_arith)
                requires
                    n == pixels.len() / 3,
            ;
            let mut out: Vec<u8> = Vec::new();
            let mut k: usize = 0;
            let mut i: usize = 0;
            while k < n
                invariant
                    n == pixels.len() / 3,
                    3 * n <= pixels.len(),
                    k <= n,
                    i == 3 * k,
                    out@ == rgb_to_rgba(pixels@, k as nat),
                decreases n - k,
            {
                out.push(pixels[i]);
                out.push(pixels[i + 1]);
                out.push(pixels[i + 2]);
                out.push(255u8);
                k = k + 1;
                i = i + 3;
            }
            Some(out)
        },
        PixelFormat::R8 => {
            let mut out: Vec<u8> = Vec::new();
            let mut k: usize = 0;
            while k < pixels.len()
                invariant
                    k <= pixels.len(),
                    out@ == gray_to_rgba(pixels@, k as nat),
                decreases pixels.len() - k,
            {
                let v = pixels[k];
                out.push(v);
                out.push(v);
                out.push(v);
                out.push(255u8);
                k = k + 1;
            }
            Some(out)
        },
        _ => None,
    }
}

/// PNG file that the `image` crate's PNG encoder, with its default
/// compression and filter, writes for an RGBA8 image, or its error text.
pub uninterp spec fn png_rgba8(rgba: Seq<u8>, width: u32, height: u32) -> Result<Seq<u8>, Seq<char>>;

/// `image::codecs::png::PngEncoder::write_image` with `Rgba8` pixels into a
/// byte vector. The encoder asserts that the buffer holds `width * height`
/// pixels of four bytes, so that is required. The bytes written, or the
/// error's text, are the named encoding of the arguments; the encoding itself
/// is not restated here.
#[verifier::external_body]
fn encode_png_rgba8(rgba: &Vec<u8>, width: u32, height: u32) -> (r: Result<Vec<u8>, String>)
    requires
        rgba.len() == width as int * height as int * 4,
    ensures
        match r {
            Ok(bytes) => png_rgba8(rgba@, width, height) == Ok::<Seq<u8>, Seq<char>>(bytes@),
            Err(m) => png_rgba8(rgba@, width, height) == Err::<Seq<u8>, Seq<char>>(m@),
        },
{
    let mut bytes = Vec::new();
    let written = image::codecs::png::PngEncoder::new(&mut bytes).write_image(
        rgba,
        width,
        height,
        image::ExtendedColorType::Rgba8,
    );
    match written {
        Ok(()) => Ok(bytes),
        Err(err) => Err(err.to_string()),
    }
}

/// What a decoded glTF image is re-encoded as: PNG bytes and their MIME
/// type, or the text of the image error.
pub open spec fn encoded_image(format: PixelFormat, pixels: Seq<u8>, width: u32, height: u32) -> Result<
    (Seq<u8>, Seq<char>),
    Seq<char>,
> {
    match rgba8_pixels(format, pixels) {
        None => Err("unsupported glTF image format: "@ + format_name(format)),
        Some(rgba) => if rgba.len() != width as int * height as int * 4 {
            Err("glTF image pixel buffer does not match its size"@)
        } else {
            match png_rgba8(rgba, width, height) {
                Ok(bytes) => Ok((bytes, "image/png"@)),
                Err(m) => Err(m),
            }
        },
    }
}

/// Re-encodes a decoded glTF image as PNG. An image whose pixel count is
/// not `width * height` is an image error.
pub fn encode_gltf_image(format: PixelFormat, pixels: &Vec<u8>, width: u32, height: u32) -> (r:
    Result<(Vec<u8>, String), ImportError>)
    ensures
        match r {
            Ok((bytes, mime)) => encoded_image(format, pixels@, width, height) == Ok::<
                (Seq<u8>, Seq<char>),
                Seq<char>,
            >((bytes@, mime@)),
            Err(ImportError::Image(m)) => encoded_image(format, pixels@, width, height) == Err::<
                (Seq<u8>, Seq<char>),
                Seq<char>,
            >(m@),
            Err(_) => false,
        },
{
    match to_rgba8(format, pixels) {
        None => {
            let mut m = "unsupported glTF image format: ".to_owned();
            push_str(&mut m, format_text(format));
            Err(ImportError::Image(m))
        },
        Some(rgba) => {
            assert(width as u128 * height as u128 <= 0xffff_ffff_ffff_ffff_ffff_ffffu128) by (nonlinear_arith)
                requires
                    width <= 0xffff_ffffu32,
                    height <= 0xffff_ffffu32,
            ;
            let expected: u128 = width as u128 * height as u128 * 4;
            if rgba.len() as u128 != expected {
                return Err(ImportError::Image("glTF image pixel buffer does not match its size".to_owned()));
            }
            match encode_png_rgba8(&rgba, width, height) {
                Ok(bytes) => Ok((bytes, "image/png".to_owned())),
                Err(m) => Err(ImportError::Image(m)),
            }
        },
    }
}

fn format_text(format: PixelFormat) -> (r: &'static str)
    ensures
        r@ == format_name(format),
{
    match format {
        PixelFormat::R8 => "R8",
        PixelFormat::R8G8 => "R8G8",
        PixelFormat::R8G8B8 => "R8G8B8",
        PixelFormat::R8G8B8A8 => "R8G8B8A8",
        PixelFormat::R16 => "R16",
        PixelFormat::R16G16 => "R16G16",
        PixelFormat::R16G16B16 => "R16G16B16",
        PixelFormat::R16G16B16A16 => "R16G16B16A16",
        PixelFormat::R32G32B32FLOAT => "R32G32B32FLOAT",
        PixelFormat::R32G32B32A32FLOAT => "R32G32B32A32FLOAT",
    }
}

/// Mathematical content of an [`ImportError`].
pub enum ImportErrorModel {
    Io(Seq<char>),
    Gltf(Seq<char>),
    Invalid(Seq<char>),
    Image(Seq<char>),
}

impl View for ImportError {
    type V = ImportErrorModel;

    open spec fn view(&self) -> ImportErrorModel {
        match self {
            ImportError::Io(m) => ImportErrorModel::Io(m@),
            ImportError::Gltf(m) => ImportErrorModel::Gltf(m@),
            ImportError::Invalid(m) => ImportErrorModel::Invalid(m@),
            ImportError::Image(m) => ImportErrorModel::Image(m@),
        }
    }
}

/// A decoded image of a glTF document.
#[derive(Debug, Clone, PartialEq, Eq)]
pub struct GltfImage {
    /// Pixel layout.
    pub format: PixelFormat,
    /// Pixel bytes.
    pub pixels: Vec<u8>,
    /// Width in pixels.
    pub width: u32,
    /// Height in pixels.
    pub height: u32,
}

/// A texture of a glTF document.
#[derive(Debug, Clone, PartialEq, Eq)]
pub struct GltfTexture {
    /// Its own name, if any.
    pub name: Option<String>,
    /// Index of its source image.
    pub image: usize,
}

/// A material of a glTF document.
#[derive(Debug, Clone, PartialEq, Eq)]
pub struct GltfMaterial {
    /// Its own name, if any.
    pub name: Option<String>,
    /// PBR base color factor (`f32` bits).
    pub base_color: [u32; 4],
    /// Texture index of the base color texture, if any.
    pub base_color_texture: Option<usize>,
}

/// A mesh primitive of a glTF document, with the vertex attributes it has.
#[derive(Debug, Clone, PartialEq, Eq)]
pub struct GltfPrimitive {
    /// Positions (`f32` bits).
    pub positions: Option<Vec<[u32; 3]>>,
    /// Normals (`f32` bits).
    pub normals: Option<Vec<[u32; 3]>>,
    /// First UV set (`f32` bits).
    pub uvs: Option<Vec<[u32; 2]>>,
    /// Indices widened to `u32`.
    pub indices: Option<Vec<u32>>,
    /// Material index, if any.
    pub material: Option<usize>,
}

/// A mesh of a glTF document.
#[derive(Debug, Clone, PartialEq, Eq)]
pub struct GltfMesh {
    /// Its own name, if any.
    pub name: Option<String>,
    /// Its primitives.
    pub primitives: Vec<GltfPrimitive>,
}

/// Translation, rotation (xyzw) and scale of a node (`f32` bits).
#[derive(Debug, Clone, Copy, PartialEq, Eq)]
pub struct NodeTransform {
    pub translation: [u32; 3],
    pub rotation: [u32; 4],
    pub scale: [u32; 3],
}

/// Scene node imported from glTF.
#[derive(Debug)]
pub struct ImportedNode {
    /// Its own name, if any.
    pub name: Option<String>,
    /// Local transform.
    pub transform: NodeTransform,
    /// Index of the mesh it instantiates, if any.
    pub mesh_index: Option<usize>,
    /// Child nodes.
    pub children: Vec<ImportedNode>,
}

/// A node of a glTF document: its own name, local transform, the glTF mesh
/// it instantiates, and the indices of its child nodes.
#[derive(Debug, Clone, PartialEq, Eq)]
pub struct GltfNode {
    pub name: Option<String>,
    pub transform: NodeTransform,
    pub mesh: Option<usize>,
    pub children: Vec<usize>,
}

/// The content of a glTF document that the import reads: images, textures,
/// materials, meshes, nodes, the root nodes of each scene, and the index of
/// the default scene, if one is set.
#[derive(Debug)]
pub struct GltfDocument {
    pub images: Vec<GltfImage>,
    pub textures: Vec<GltfTexture>,
    pub materials: Vec<GltfMaterial>,
    pub meshes: Vec<GltfMesh>,
    pub nodes: Vec<GltfNode>,
    pub scenes: Vec<Vec<usize>>,
    pub default_scene: Option<usize>,
}

/// Imported material prior to AssetDB insertion.
#[derive(Debug, Clone, PartialEq)]
pub struct ImportedMaterial {
    /// Debug name.
    pub name: String,
    /// Material payload.
    pub data: MaterialAssetData,
    /// Index of the base color texture among the imported textures.
    pub texture_index: Option<usize>,
}

/// Imported mesh prior to AssetDB insertion.
#[derive(Debug, Clone, PartialEq)]
pub struct ImportedMesh {
    /// Debug name.
    pub name: String,
    /// Mesh payload.
    pub data: MeshAssetData,
    /// Index of its material among the imported materials.
    pub material_index: Option<usize>,
}

/// Parsed glTF content ready for AssetDB and SceneDB insertion.
#[derive(Debug)]
pub struct GltfImportResult {
    pub textures: Vec<ImportedTexture>,
    pub materials: Vec<ImportedMaterial>,
    pub meshes: Vec<ImportedMesh>,
    pub root_nodes: Vec<ImportedNode>,
}

pub open spec fn name_view(name: Option<String>) -> Option<Seq<char>> {
    match name {
        Some(n) => Some(n@),
        None => None,
    }
}

/// Name, bytes and MIME type of an imported texture.
pub open spec fn texture_view(t: ImportedTexture) -> (Seq<char>, Seq<u8>, Seq<char>) {
    (t.name@, t.bytes@, t.mime_type@)
}

/// Texture `index` imported: its name, and its image re-encoded.
pub open spec fn texture_outcome(images: Seq<GltfImage>, t: GltfTexture, index: nat) -> Result<
    (Seq<char>, Seq<u8>, Seq<char>),
    Seq<char>,
> {
    if t.image >= images.len() {
        Err("glTF texture refers to a missing image"@)
    } else {
        let img = images[t.image as int];
        match encoded_image(img.format, img.pixels@, img.width, img.height) {
            Ok((bytes, mime)) => Ok((item_name_spec(name_view(t.name), "texture"@, index), bytes, mime)),
            Err(m) => Err(m),
        }
    }
}

/// The first `k` textures imported in order, or the first image error.
pub open spec fn textures_upto(images: Seq<GltfImage>, textures: Seq<GltfTexture>, k: int) -> Result<
    Seq<(Seq<char>, Seq<u8>, Seq<char>)>,
    Seq<char>,
>
    decreases k,
{
    if k <= 0 {
        Ok(Seq::empty())
    } else {
        match textures_upto(images, textures, k - 1) {
            Err(m) => Err(m),
            Ok(done) => match texture_outcome(images, textures[k - 1], (k - 1) as nat) {
                Err(m) => Err(m),
                Ok(t) => Ok(done.push(t)),
            },
        }
    }
}

/// Mathematical content of an imported mesh.
pub struct MeshView {
    pub name: Seq<char>,
    pub version: u32,
    pub tangents: Seq<[u32; 4]>,
    pub positions: Seq<[u32; 3]>,
    pub normals: Seq<[u32; 3]>,
    pub uvs: Seq<[u32; 2]>,
    pub indices: Seq<u32>,
    pub material: Option<usize>,
}

pub open spec fn mesh_view(m: ImportedMesh) -> MeshView {
    MeshView {
        name: m.name@,
        version: m.data.version,
        tangents: m.data.tangents@,
        positions: m.data.positions@,
        normals: m.data.normals@,
        uvs: m.data.uvs@,
        indices: m.data.indices@,
        material: m.material_index,
    }
}

pub open spec fn column_or_empty<T>(column: Option<Vec<T>>) -> Seq<T> {
    match column {
        Some(v) => v@,
        None => Seq::empty(),
    }
}

/// Primitive `index` of a mesh named `mesh_name` with `count` primitives
/// imported: positions and indices are needed, normals and UVs are empty
/// when absent.
pub open spec fn primitive_outcome(p: GltfPrimitive, mesh_name: Seq<char>, count: nat, index: nat) -> Result<
    MeshView,
    Seq<char>,
> {
    match p.positions {
        None => Err("mesh primitive missing positions"@),
        Some(positions) => match p.indices {
            None => Err("mesh primitive missing indices"@),
            Some(indices) => Ok(
                MeshView {
                    name: primitive_name_spec(mesh_name, count, index),
                    version: 1,
                    tangents: Seq::empty(),
                    positions: positions@,
                    normals: column_or_empty(p.normals),
                    uvs: column_or_empty(p.uvs),
                    indices: indices@,
                    material: p.material,
                },
            ),
        },
    }
}

/// The first `j` primitives of mesh `mesh_index` imported, or the first error.
pub open spec fn primitives_upto(mesh: GltfMesh, mesh_index: nat, j: int) -> Result<Seq<MeshView>, Seq<char>>
    decreases j,
{
    if j <= 0 {
        Ok(Seq::empty())
    } else {
        match primitives_upto(mesh, mesh_index, j - 1) {
            Err(m) => Err(m),
            Ok(done) => match primitive_outcome(
                mesh.primitives@[j - 1],
                item_name_spec(name_view(mesh.name), "mesh"@, mesh_index),
                mesh.primitives@.len(),
                (j - 1) as nat,
            ) {
                Err(m) => Err(m),
                Ok(v) => Ok(done.push(v)),
            },
        }
    }
}

/// The primitives of the first `k` meshes imported in order, or the first error.
pub open spec fn meshes_upto(meshes: Seq<GltfMesh>, k: int) -> Result<Seq<MeshView>, Seq<char>>
    decreases k,
{
    if k <= 0 {
        Ok(Seq::empty())
    } else {
        match meshes_upto(meshes, k - 1) {
            Err(m) => Err(m),
            Ok(done) => match primitives_upto(
                meshes[k - 1],
                (k - 1) as nat,
                meshes[k - 1].primitives@.len() as int,
            ) {
                Err(m) => Err(m),
                Ok(more) => Ok(done + more),
            },
        }
    }
}

/// Material `index` imported: its name, version 1, its base color factor,
/// no texture asset or graph yet, and the index of its base color texture.
pub open spec fn material_imported(m: ImportedMaterial, g: GltfMaterial, index: nat) -> bool {
    &&& m.name@ == item_name_spec(name_view(g.name), "material"@, index)
    &&& m.data@ == MaterialModel {
        version: 1,
        base_color: g.base_color,
        base_color_texture: None,
        graph: None,
    }
    &&& m.texture_index == g.base_color_texture
}

proof fn lemma_textures_err_stays(images: Seq<GltfImage>, textures: Seq<GltfTexture>, k: int, n: int)
    requires
        0 <= k <= n,
        textures_upto(images, textures, k) is Err,
    ensures
        textures_upto(images, textures, n) == textures_upto(images, textures, k),
    decreases n - k,
{
    if k < n {
        lemma_textures_err_stays(images, textures, k, n - 1);
    }
}

/// Imports the textures in order, re-encoding each one's image as PNG.
pub fn import_textures(images: &Vec<GltfImage>, textures: &Vec<GltfTexture>) -> (r: Result<
    Vec<ImportedTexture>,
    ImportError,
>)
    ensures
        match r {
            Ok(v) => textures_upto(images@, textures@, textures@.len() as int) == Ok::<
                Seq<(Seq<char>, Seq<u8>, Seq<char>)>,
                Seq<char>,
            >(v@.map_values(|t: ImportedTexture| texture_view(t))),
            Err(e) => textures_upto(images@, textures@, textures@.len() as int) == Err::<
                Seq<(Seq<char>, Seq<u8>, Seq<char>)>,
                Seq<char>,
            >(e@->Image_0) && e@ is Image,
        },
{
    let mut out: Vec<ImportedTexture> = Vec::new();
    let mut i: usize = 0;
    assert(out@.map_values(|t: ImportedTexture| texture_view(t)) =~= Seq::empty());
    while i < textures.len()
        invariant
            i <= textures.len(),
            textures_upto(images@, textures@, i as int) == Ok::<
                Seq<(Seq<char>, Seq<u8>, Seq<char>)>,
                Seq<char>,
            >(out@.map_values(|t: ImportedTexture| texture_view(t))),
        decreases textures.len() - i,
    {
        let t = &textures[i];
        if t.image >= images.len() {
            proof {
                lemma_textures_err_stays(images@, textures@, i + 1, textures@.len() as int);
            }
            return Err(ImportError::Image("glTF texture refers to a missing image".to_owned()));
        }
        let img = &images[t.image];
        match encode_gltf_image(img.format, &img.pixels, img.width, img.height) {
            Err(e) => {
                proof {
                    lemma_textures_err_stays(images@, textures@, i + 1, textures@.len() as int);
                }
                return Err(e);
            },
            Ok((bytes, mime)) => {
                let name = item_name(
                    match &t.name {
                        Some(n) => Some(n.as_str()),
                        None => None,
                    },
                    "texture",
                    i,
                );
                let ghost before = out@;
                let tex = ImportedTexture { name, bytes, mime_type: mime };
                out.push(tex);
                proof {
                    assert(out@.map_values(|t: ImportedTexture| texture_view(t)) =~= before.map_values(
                        |t: ImportedTexture| texture_view(t),
                    ).push(texture_view(tex)));
                }
                i = i + 1;
            },
        }
    }
    Ok(out)
}

proof fn lemma_primitives_err_stays(mesh: GltfMesh, mesh_index: nat, k: int, n: int)
    requires
        0 <= k <= n,
        primitives_upto(mesh, mesh_index, k) is Err,
    ensures
        primitives_upto(mesh, mesh_index, n) == primitives_upto(mesh, mesh_index, k),
    decreases n - k,
{
    if k < n {
        lemma_primitives_err_stays(mesh, mesh_index, k, n - 1);
    }
}

proof fn lemma_meshes_err_stays(meshes: Seq<GltfMesh>, k: int, n: int)
    requires
        0 <= k <= n,
        meshes_upto(meshes, k) is Err,
    ensures
        meshes_upto(meshes, n) == meshes_upto(meshes, k),
    decreases n - k,
{
    if k < n {
        lemma_meshes_err_stays(meshes, k, n - 1);
    }
}

fn copy_column<T: Copy>(column: &Option<Vec<T>>) -> (r: Vec<T>)
    ensures
        r@ == column_or_empty(*column),
{
    let mut out: Vec<T> = Vec::new();
    match column {
        None => {},
        Some(v) => {
            let mut i: usize = 0;
            while i < v.len()
                invariant
                    i <= v.len(),
                    out@ == v@.take(i as int),
                decreases v.len() - i,
            {
                out.push(v[i]);
                i = i + 1;
                assert(v@.take(i as int) =~= v@.take(i - 1).push(v@[i - 1]));
            }
            assert(v@.take(v.len() as int) =~= v@);
        },
    }
    out
}

/// Imports one primitive of a mesh named `mesh_name` with `count` primitives.
fn import_primitive(p: &GltfPrimitive, mesh_name: &str, count: usize, index: usize) -> (r: Result<
    ImportedMesh,
    ImportError,
>)
    ensures
        match r {
            Ok(m) => primitive_outcome(*p, mesh_name@, count as nat, index as nat) == Ok::<
                MeshView,
                Seq<char>,
            >(mesh_view(m)),
            Err(e) => e@ is Invalid && primitive_outcome(*p, mesh_name@, count as nat, index as nat)
                == Err::<MeshView, Seq<char>>(e@->Invalid_0),
        },
{
    if p.positions.is_none() {
        return Err(ImportError::Invalid("mesh primitive missing positions".to_owned()));
    }
    if p.indices.is_none() {
        return Err(ImportError::Invalid("mesh primitive missing indices".to_owned()));
    }
    let positions = copy_column(&p.positions);
    let normals = copy_column(&p.normals);
    let uvs = copy_column(&p.uvs);
    let indices = copy_column(&p.indices);
    let name = primitive_name(mesh_name, count, index);
    let m = ImportedMesh {
        name,
        data: MeshAssetData { version: 1, positions, normals, uvs, tangents: Vec::new(), indices },
        material_index: p.material,
    };
    assert(m.data.tangents@ =~= Seq::<[u32; 4]>::empty());
    Ok(m)
}

/// Imports the meshes in order, each primitive as a mesh of its own.
pub fn import_meshes(meshes: &Vec<GltfMesh>) -> (r: Result<Vec<ImportedMesh>, ImportError>)
    ensures
        match r {
            Ok(v) => meshes_upto(meshes@, meshes@.len() as int) == Ok::<Seq<MeshView>, Seq<char>>(
                v@.map_values(|m: ImportedMesh| mesh_view(m)),
            ) && v@.len() == prims_before(meshes@, meshes@.len() as int),
            Err(e) => e@ is Invalid && meshes_upto(meshes@, meshes@.len() as int) == Err::<
                Seq<MeshView>,
                Seq<char>,
            >(e@->Invalid_0),
        },
{
    let mut out: Vec<ImportedMesh> = Vec::new();
    let mut k: usize = 0;
    assert(out@.map_values(|m: ImportedMesh| mesh_view(m)) =~= Seq::empty());
    while k < meshes.len()
        invariant
            k <= meshes.len(),
            meshes_upto(meshes@, k as int) == Ok::<Seq<MeshView>, Seq<char>>(
                out@.map_values(|m: ImportedMesh| mesh_view(m)),
            ),
            out@.len() == prims_before(meshes@, k as int),
        decreases meshes.len() - k,
    {
        let mesh = &meshes[k];
        let mesh_name = item_name(
            match &mesh.name {
                Some(n) => Some(n.as_str()),
                None => None,
            },
            "mesh",
            k,
        );
        let count = mesh.primitives.len();
        let ghost done = out@.map_values(|m: ImportedMesh| mesh_view(m));
        let mut j: usize = 0;
        proof {
            assert(done + Seq::<MeshView>::empty() =~= done);
        }
        while j < count
            invariant
                k < meshes.len(),
                *mesh == meshes@[k as int],
                count == mesh.primitives.len(),
                j <= count,
                out@.len() == prims_before(meshes@, k as int) + j,
                mesh_name@ == item_name_spec(name_view(mesh.name), "mesh"@, k as nat),
                meshes_upto(meshes@, k as int) == Ok::<Seq<MeshView>, Seq<char>>(done),
                primitives_upto(*mesh, k as nat, j as int) matches Ok(more) && out@.map_values(
                    |m: ImportedMesh| mesh_view(m),
                ) == done + more,
            decreases count - j,
        {
            match import_primitive(&mesh.primitives[j], mesh_name.as_str(), count, j) {
                Err(e) => {
                    proof {
                        lemma_primitives_err_stays(*mesh, k as nat, j + 1, count as int);
                        lemma_meshes_err_stays(meshes@, k + 1, meshes@.len() as int);
                    }
                    return Err(e);
                },
                Ok(m) => {
                    let ghost before = out@;
                    let ghost more = primitives_upto(*mesh, k as nat, j as int)->Ok_0;
                    out.push(m);
                    proof {
                        assert(out@.map_values(|m: ImportedMesh| mesh_view(m)) =~= before.map_values(
                            |m: ImportedMesh| mesh_view(m),
                        ).push(mesh_view(m)));
                        assert(done + more.push(mesh_view(m)) =~= (done + more).push(mesh_view(m)));
                    }
                    j = j + 1;
                },
            }
        }
        k = k + 1;
    }
    Ok(out)
}

/// Imports the materials in order.
pub fn import_materials(materials: &Vec<GltfMaterial>) -> (r: Vec<ImportedMaterial>)
    ensures
        r.len() == materials.len(),
        forall|i: int| 0 <= i < r.len() ==> material_imported(#[trigger] r@[i], materials@[i], i as nat),
{
    let mut out: Vec<ImportedMaterial> = Vec::new();
    let mut i: usize = 0;
    while i < materials.len()
        invariant
            i <= materials.len(),
            out.len() == i,
            forall|k: int| 0 <= k < i ==> material_imported(#[trigger] out@[k], materials@[k], k as nat),
        decreases materials.len() - i,
    {
        let g = &materials[i];
        let name = item_name(
            match &g.name {
                Some(n) => Some(n.as_str()),
                None => None,
            },
            "material",
            i,
        );
        let m = ImportedMaterial {
            name,
            data: MaterialAssetData {
                version: 1,
                base_color: g.base_color,
                base_color_texture: None,
                graph: None,
            },
            texture_index: g.base_color_texture,
        };
        out.push(m);
        i = i + 1;
    }
    out
}

/// Number of primitives of the meshes before mesh `m`: the index, among the
/// imported meshes, of the first primitive of mesh `m`.
pub open spec fn prims_before(meshes: Seq<GltfMesh>, m: int) -> nat
    decreases m,
{
    if m <= 0 {
        0
    } else {
        prims_before(meshes, m - 1) + meshes[m - 1].primitives@.len()
    }
}

/// For each mesh, the index among the imported meshes of its first
/// primitive, none when it has no primitives.
pub open spec fn mesh_firsts(meshes: Seq<GltfMesh>) -> Seq<Option<int>> {
    Seq::new(
        meshes.len(),
        |m: int| if meshes[m].primitives@.len() > 0 { Some(prims_before(meshes, m) as int) } else { None },
    )
}

/// The imported mesh that a node instantiating glTF mesh `mesh` refers to:
/// the first primitive of that mesh, none when it has no primitives.
pub open spec fn mesh_reference(firsts: Seq<Option<int>>, mesh: Option<usize>, r: Option<usize>) -> bool {
    match mesh {
        None => r is None,
        Some(m) => m < firsts.len() && match firsts[m as int] {
            Some(f) => r matches Some(x) && x == f,
            None => r is None,
        },
    }
}

/// Node `i` and the nodes below it can be read within `fuel` levels: every
/// index names a node and every mesh a mesh. A hierarchy with a cycle runs
/// out of levels.
pub open spec fn node_readable(nodes: Seq<GltfNode>, firsts: Seq<Option<int>>, i: int, fuel: int) -> bool
    decreases fuel, nodes[i].children@.len() + 1,
{
    &&& fuel > 0
    &&& 0 <= i < nodes.len()
    &&& match nodes[i].mesh {
        Some(m) => m < firsts.len(),
        None => true,
    }
    &&& kids_readable(nodes, firsts, i, nodes[i].children@.len() as int, fuel)
}

/// The first `k` children of node `i` can be read within `fuel - 1` levels.
pub open spec fn kids_readable(nodes: Seq<GltfNode>, firsts: Seq<Option<int>>, i: int, k: int, fuel: int) -> bool
    decreases fuel, k,
{
    if k <= 0 || fuel <= 0 {
        true
    } else {
        kids_readable(nodes, firsts, i, k - 1, fuel) && node_readable(nodes, firsts,
            nodes[i].children@[k - 1] as int,
            fuel - 1,
        )
    }
}

/// `n` is node `i` of the document imported with its subtree: its name and
/// transform, its mesh as the imported mesh of the mesh's first primitive,
/// and its children in order.
pub open spec fn node_imported(n: ImportedNode, nodes: Seq<GltfNode>, firsts: Seq<Option<int>>, i: int, fuel: int) -> bool
    decreases fuel, n.children@.len() + 1,
{
    &&& fuel > 0
    &&& 0 <= i < nodes.len()
    &&& name_view(n.name) == name_view(nodes[i].name)
    &&& n.transform == nodes[i].transform
    &&& mesh_reference(firsts, nodes[i].mesh, n.mesh_index)
    &&& n.children@.len() == nodes[i].children@.len()
    &&& kids_imported(n.children@, nodes, firsts, i, n.children@.len() as int, fuel)
}

/// The first `k` of `children` are the first `k` children of node `i`
/// imported within `fuel - 1` levels.
pub open spec fn kids_imported(children: Seq<ImportedNode>, nodes: Seq<GltfNode>, firsts: Seq<Option<int>>, i: int, k: int, fuel: int) -> bool
    decreases fuel, k,
{
    if k <= 0 || fuel <= 0 {
        true
    } else {
        kids_imported(children, nodes, firsts, i, k - 1, fuel) && node_imported(children[k - 1], nodes, firsts,
            nodes[i].children@[k - 1] as int,
            fuel - 1,
        )
    }
}

proof fn lemma_kids_readable(nodes: Seq<GltfNode>, firsts: Seq<Option<int>>, i: int, k: int, fuel: int)
    requires
        fuel > 0,
        k >= 0,
    ensures
        kids_readable(nodes, firsts, i, k, fuel) <==> forall|q: int|
            0 <= q < k ==> #[trigger] node_readable(nodes, firsts, nodes[i].children@[q] as int, fuel - 1),
    decreases k,
{
    if k > 0 {
        lemma_kids_readable(nodes, firsts, i, k - 1, fuel);
        let last = node_readable(nodes, firsts, nodes[i].children@[k - 1] as int, fuel - 1);
        assert(kids_readable(nodes, firsts, i, k, fuel) == (kids_readable(nodes, firsts, i, k - 1, fuel) && last));
        if forall|q: int| 0 <= q < k ==> #[trigger] node_readable(nodes, firsts, nodes[i].children@[q] as int, fuel - 1) {
            assert(last);
        }
        if kids_readable(nodes, firsts, i, k, fuel) {
            assert forall|q: int| 0 <= q < k implies #[trigger] node_readable(nodes, firsts,
                nodes[i].children@[q] as int,
                fuel - 1,
            ) by {
                if q < k - 1 {
                } else {
                    assert(q == k - 1);
                }
            }
        }
    }
}

proof fn lemma_kids_imported(children: Seq<ImportedNode>, nodes: Seq<GltfNode>, firsts: Seq<Option<int>>, i: int, k: int, fuel: int)
    requires
        fuel > 0,
        k >= 0,
    ensures
        kids_imported(children, nodes, firsts, i, k, fuel) <==> forall|q: int|
            0 <= q < k ==> #[trigger] node_imported(children[q], nodes, firsts,
                nodes[i].children@[q] as int,
                fuel - 1,
            ),
    decreases k,
{
    if k > 0 {
        lemma_kids_imported(children, nodes, firsts, i, k - 1, fuel);
        let last = node_imported(children[k - 1], nodes, firsts, nodes[i].children@[k - 1] as int, fuel - 1);
        assert(kids_imported(children, nodes, firsts, i, k, fuel) == (kids_imported(children, nodes, firsts, i, k - 1, fuel)
            && last));
        if forall|q: int|
            0 <= q < k ==> #[trigger] node_imported(children[q], nodes, firsts, nodes[i].children@[q] as int, fuel - 1) {
            assert(last);
        }
        if kids_imported(children, nodes, firsts, i, k, fuel) {
            assert forall|q: int| 0 <= q < k implies #[trigger] node_imported(children[q], nodes, firsts,
                nodes[i].children@[q] as int,
                fuel - 1,
            ) by {
                if q < k - 1 {
                } else {
                    assert(q == k - 1);
                }
            }
        }
    }
}

/// The scene the import reads: the default scene, else the first one.
pub open spec fn chosen_scene(doc: GltfDocument) -> Option<int> {
    if doc.scenes@.len() == 0 {
        None
    } else {
        match doc.default_scene {
            Some(s) => if s < doc.scenes@.len() { Some(s as int) } else { Some(0) },
            None => Some(0),
        }
    }
}

/// Every root of scene `s` can be read within as many levels as there are nodes.
pub open spec fn scene_readable(doc: GltfDocument, s: int) -> bool {
    forall|k: int|
        0 <= k < doc.scenes@[s]@.len() ==> #[trigger] node_readable(
            doc.nodes@,
            mesh_firsts(doc.meshes@),
            doc.scenes@[s]@[k] as int,
            doc.nodes@.len() as int,
        )
}

/// Message for a node hierarchy that cannot be read.
pub open spec fn broken_hierarchy() -> Seq<char> {
    "glTF node hierarchy has a cycle or refers to a missing node or mesh"@
}

/// The first error of importing the document, if any: an image error of a
/// texture, a primitive without positions or indices, no scene, or a node
/// hierarchy that cannot be read.
pub open spec fn document_error(doc: GltfDocument) -> Option<ImportErrorModel> {
    match textures_upto(doc.images@, doc.textures@, doc.textures@.len() as int) {
        Err(m) => Some(ImportErrorModel::Image(m)),
        Ok(_) => match meshes_upto(doc.meshes@, doc.meshes@.len() as int) {
            Err(m) => Some(ImportErrorModel::Invalid(m)),
            Ok(_) => match chosen_scene(doc) {
                None => Some(ImportErrorModel::Invalid("glTF file has no scenes"@)),
                Some(s) => if scene_readable(doc, s) {
                    None
                } else {
                    Some(ImportErrorModel::Invalid(broken_hierarchy()))
                },
            },
        },
    }
}

/// What importing `doc` gives: its first error, or its textures re-encoded,
/// its materials, each mesh primitive as a mesh, and the root nodes of the
/// chosen scene with their subtrees.
pub open spec fn document_imported(doc: GltfDocument, r: Result<GltfImportResult, ImportError>) -> bool {
    match r {
        Err(e) => document_error(doc) == Some(e@),
        Ok(res) => {
            &&& document_error(doc) is None
            &&& textures_upto(doc.images@, doc.textures@, doc.textures@.len() as int) == Ok::<
                Seq<(Seq<char>, Seq<u8>, Seq<char>)>,
                Seq<char>,
            >(res.textures@.map_values(|t: ImportedTexture| texture_view(t)))
            &&& res.materials.len() == doc.materials.len()
            &&& forall|i: int|
                0 <= i < res.materials.len() ==> material_imported(
                    #[trigger] res.materials@[i],
                    doc.materials@[i],
                    i as nat,
                )
            &&& meshes_upto(doc.meshes@, doc.meshes@.len() as int) == Ok::<Seq<MeshView>, Seq<char>>(
                res.meshes@.map_values(|m: ImportedMesh| mesh_view(m)),
            )
            &&& chosen_scene(doc) matches Some(s) && res.root_nodes@.len() == doc.scenes@[s]@.len()
                && forall|k: int|
                0 <= k < res.root_nodes@.len() ==> #[trigger] node_imported(
                    res.root_nodes@[k],
                    doc.nodes@,
                    mesh_firsts(doc.meshes@),
                    doc.scenes@[s]@[k] as int,
                    doc.nodes@.len() as int,
                )
        },
    }
}

proof fn lemma_prims_before_grows(meshes: Seq<GltfMesh>, a: int, b: int)
    requires
        0 <= a <= b,
    ensures
        prims_before(meshes, a) <= prims_before(meshes, b),
    decreases b - a,
{
    if a < b {
        lemma_prims_before_grows(meshes, a, b - 1);
    }
}

/// Index of the first primitive of each mesh among the imported meshes.
fn primitive_starts(meshes: &Vec<GltfMesh>, total: usize) -> (r: Vec<usize>)
    requires
        prims_before(meshes@, meshes@.len() as int) == total,
    ensures
        r@.len() == meshes@.len(),
        forall|m: int| 0 <= m < r@.len() ==> r@[m] == prims_before(meshes@, m),
{
    let mut r: Vec<usize> = Vec::new();
    let mut acc: usize = 0;
    let mut m: usize = 0;
    while m < meshes.len()
        invariant
            m <= meshes.len(),
            prims_before(meshes@, meshes@.len() as int) == total,
            acc == prims_before(meshes@, m as int),
            r@.len() == m,
            forall|q: int| 0 <= q < m ==> r@[q] == prims_before(meshes@, q),
        decreases meshes.len() - m,
    {
        r.push(acc);
        proof {
            lemma_prims_before_grows(meshes@, m + 1, meshes@.len() as int);
        }
        acc = acc + meshes[m].primitives.len();
        m = m + 1;
    }
    r
}

/// Reads node `i` and its subtree within `fuel` levels.
fn read_node(doc: &GltfDocument, starts: &Vec<usize>, i: usize, fuel: usize) -> (r: Option<ImportedNode>)
    requires
        starts@.len() == doc.meshes@.len(),
        forall|m: int| 0 <= m < starts@.len() ==> starts@[m] == prims_before(doc.meshes@, m),
    ensures
        r is Some <==> node_readable(doc.nodes@, mesh_firsts(doc.meshes@), i as int, fuel as int),
        r matches Some(n) ==> node_imported(n, doc.nodes@, mesh_firsts(doc.meshes@), i as int, fuel as int),
    decreases fuel,
{
    if fuel == 0 || i >= doc.nodes.len() {
        return None;
    }
    let node = &doc.nodes[i];
    let mesh_index = match node.mesh {
        None => None,
        Some(m) => {
            if m >= doc.meshes.len() {
                return None;
            }
            if doc.meshes[m].primitives.len() > 0 {
                Some(starts[m])
            } else {
                None
            }
        },
    };
    let mut children: Vec<ImportedNode> = Vec::new();
    let mut k: usize = 0;
    while k < node.children.len()
        invariant
            fuel > 0,
            i < doc.nodes@.len() as int,
            *node == doc.nodes@[i as int],
            starts@.len() == doc.meshes@.len(),
            forall|m: int| 0 <= m < starts@.len() ==> starts@[m] == prims_before(doc.meshes@, m),
            k <= node.children@.len(),
            children@.len() == k,
            forall|q: int|
                0 <= q < k ==> #[trigger] node_readable(doc.nodes@, mesh_firsts(doc.meshes@), node.children@[q] as int, fuel - 1),
            forall|q: int|
                0 <= q < k ==> node_imported(#[trigger] children@[q], doc.nodes@, mesh_firsts(doc.meshes@), node.children@[q] as int, fuel - 1),
        decreases node.children@.len() - k,
    {
        match read_node(doc, starts, node.children[k], fuel - 1) {
            None => {
                proof {
                    assert(doc.nodes@[i as int].children@[k as int] == node.children@[k as int]);
                    lemma_kids_readable(doc.nodes@, mesh_firsts(doc.meshes@), i as int, node.children@.len() as int, fuel as int);
                }
                return None;
            },
            Some(c) => {
                children.push(c);
            },
        }
        k = k + 1;
    }
    let n = ImportedNode { name: copy_name(&node.name), transform: node.transform, mesh_index, children };
    proof {
        lemma_kids_readable(doc.nodes@, mesh_firsts(doc.meshes@), i as int, node.children@.len() as int, fuel as int);
        lemma_kids_imported(n.children@, doc.nodes@, mesh_firsts(doc.meshes@), i as int, n.children@.len() as int, fuel as int);
        assert forall|q: int| 0 <= q < node.children@.len() implies #[trigger] node_readable(
            doc.nodes@,
            mesh_firsts(doc.meshes@),
            doc.nodes@[i as int].children@[q] as int,
            fuel - 1,
        ) by {}
        assert forall|q: int| 0 <= q < n.children@.len() implies #[trigger] node_imported(
            n.children@[q],
            doc.nodes@,
            mesh_firsts(doc.meshes@),
            doc.nodes@[i as int].children@[q] as int,
            fuel - 1,
        ) by {}
    }
    Some(n)
}

/// Reads the root nodes of scene `s` with their subtrees.
fn read_scene(doc: &GltfDocument, starts: &Vec<usize>, s: usize) -> (r: Option<Vec<ImportedNode>>)
    requires
        s < doc.scenes@.len(),
        starts@.len() == doc.meshes@.len(),
        forall|m: int| 0 <= m < starts@.len() ==> starts@[m] == prims_before(doc.meshes@, m),
    ensures
        match r {
            Some(roots) => scene_readable(*doc, s as int) && roots@.len() == doc.scenes@[s as int]@.len()
                && forall|k: int|
                0 <= k < roots@.len() ==> #[trigger] node_imported(
                    roots@[k],
                    doc.nodes@,
                    mesh_firsts(doc.meshes@),
                    doc.scenes@[s as int]@[k] as int,
                    doc.nodes@.len() as int,
                ),
            None => !scene_readable(*doc, s as int),
        },
{
    let scene = &doc.scenes[s];
    let mut roots: Vec<ImportedNode> = Vec::new();
    let mut k: usize = 0;
    while k < scene.len()
        invariant
            s < doc.scenes@.len(),
            *scene == doc.scenes@[s as int],
            starts@.len() == doc.meshes@.len(),
            forall|m: int| 0 <= m < starts@.len() ==> starts@[m] == prims_before(doc.meshes@, m),
            k <= scene@.len(),
            roots@.len() == k,
            forall|q: int|
                0 <= q < k ==> #[trigger] node_readable(doc.nodes@, mesh_firsts(doc.meshes@), scene@[q] as int, doc.nodes@.len() as int),
            forall|q: int|
                0 <= q < k ==> node_imported(#[trigger] roots@[q], doc.nodes@, mesh_firsts(doc.meshes@), scene@[q] as int, doc.nodes@.len() as int),
        decreases scene@.len() - k,
    {
        match read_node(doc, starts, scene[k], doc.nodes.len()) {
            None => {
                return None;
            },
            Some(n) => {
                roots.push(n);
            },
        }
        k = k + 1;
    }
    proof {
        assert forall|q: int| 0 <= q < doc.scenes@[s as int]@.len() implies #[trigger] node_readable(
            doc.nodes@,
            mesh_firsts(doc.meshes@),
            doc.scenes@[s as int]@[q] as int,
            doc.nodes@.len() as int,
        ) by {}
    }
    Some(roots)
}

/// Imports a glTF document: its textures re-encoded as PNG, its materials,
/// each mesh primitive as a mesh, and the root nodes of its default scene
/// (else its first scene) with each node's mesh as the imported mesh of the
/// mesh's first primitive.
pub fn import_gltf_document(doc: GltfDocument) -> (r: Result<GltfImportResult, ImportError>)
    ensures
        document_imported(doc, r),
{
    let textures = match import_textures(&doc.images, &doc.textures) {
        Ok(t) => t,
        Err(e) => {
            return Err(e);
        },
    };
    let materials = import_materials(&doc.materials);
    let meshes = match import_meshes(&doc.meshes) {
        Ok(m) => m,
        Err(e) => {
            return Err(e);
        },
    };
    if doc.scenes.len() == 0 {
        return Err(ImportError::Invalid("glTF file has no scenes".to_owned()));
    }
    let s = match doc.default_scene {
        Some(d) => if d < doc.scenes.len() { d } else { 0 },
        None => 0,
    };
    let starts = primitive_starts(&doc.meshes, meshes.len());
    match read_scene(&doc, &starts, s) {
        None => Err(ImportError::Invalid(
            "glTF node hierarchy has a cycle or refers to a missing node or mesh".to_owned(),
        )),
        Some(root_nodes) => Ok(GltfImportResult { textures, materials, meshes, root_nodes }),
    }
}

#[verifier::external_type_specification]
#[verifier::external_body]
pub struct ExGltfDocument(gltf::Document);

#[verifier::external_type_specification]
#[verifier::external_body]
pub struct ExGltfBufferData(gltf::buffer::Data);

#[verifier::external_type_specification]
#[verifier::external_body]
pub struct ExGltfImageData(gltf::image::Data);

/// A glTF or GLB file as the `gltf` crate read it, with its buffers and
/// decoded images, and the bytes it was read from.
pub struct GltfSource {
    bytes: Vec<u8>,
    document: gltf::Document,
    buffers: Vec<gltf::buffer::Data>,
    images: Vec<gltf::image::Data>,
}

impl View for GltfSource {
    type V = Seq<u8>;

    /// The bytes the file was read from.
    closed spec fn view(&self) -> Seq<u8> {
        self.bytes@
    }
}

/// What `gltf::import_slice` reads from the bytes of a glTF or GLB file, as
/// plain values (floats by their bits), or the text of its error.
pub uninterp spec fn gltf_content(bytes: Seq<u8>) -> Result<GltfDocument, Seq<char>>;

/// `gltf::import_slice`: parses and validates a glTF or GLB file held in
/// memory and loads its embedded buffers and images (an external reference
/// is an error). Whether it succeeds, and the error's text, are the named
/// content of the bytes. The crate subtracts the header size from a GLB's
/// declared length, unwraps the percent-decoding of a relative buffer URI,
/// unwraps an image's MIME type or URI, and slices an image's buffer view
/// out of its buffer; the inputs on which these panic are left out.
#[verifier::external_body]
fn read_gltf(bytes: &[u8]) -> (r: Result<GltfSource, String>)
    requires
        !glb_length_underflows(bytes@),
        gltf_layout(bytes@) matches Ok(l) && buffers_loadable(l) && images_loadable(l),
    ensures
        match r {
            Ok(s) => s@ == bytes@ && gltf_content(bytes@) is Ok,
            Err(e) => gltf_content(bytes@) == Err::<GltfDocument, Seq<char>>(e@),
        },
{
    match gltf::import_slice(bytes) {
        Ok((document, buffers, images)) => Ok(GltfSource { bytes: bytes.to_vec(), document, buffers, images }),
        Err(err) => Err(err.to_string()),
    }
}

/// Pixels, width and height of each image `gltf::import_slice` decoded,
/// those of the named content.
#[verifier::external_body]
fn gltf_image_pixels(s: &GltfSource) -> (r: Vec<(Vec<u8>, u32, u32)>)
    requires
        gltf_content(s@) is Ok,
    ensures
        r@.len() == gltf_content(s@)->Ok_0.images@.len(),
        forall|k: int|
            0 <= k < r@.len() ==> (#[trigger] r@[k]).0 == gltf_content(s@)->Ok_0.images@[k].pixels && r@[k].1
                == gltf_content(s@)->Ok_0.images@[k].width && r@[k].2 == gltf_content(s@)->Ok_0.images@[k].height,
{
    s.images.iter().map(|image| (image.pixels.clone(), image.width, image.height)).collect()
}

/// Pixel format of each image `gltf::import_slice` decoded (`gltf::image::Format`
/// variant by variant), that of the named content.
#[verifier::external_body]
fn gltf_image_formats(s: &GltfSource) -> (r: Vec<PixelFormat>)
    requires
        gltf_content(s@) is Ok,
    ensures
        r@ == gltf_content(s@)->Ok_0.images@.map_values(|i: GltfImage| i.format),
{
    s.images.iter().map(|image| match image.format {
        Format::R8 => PixelFormat::R8,
        Format::R8G8 => PixelFormat::R8G8,
        Format::R8G8B8 => PixelFormat::R8G8B8,
        Format::R8G8B8A8 => PixelFormat::R8G8B8A8,
        Format::R16 => PixelFormat::R16,
        Format::R16G16 => PixelFormat::R16G16,
        Format::R16G16B16 => PixelFormat::R16G16B16,
        Format::R16G16B16A16 => PixelFormat::R16G16B16A16,
        Format::R32G32B32FLOAT => PixelFormat::R32G32B32FLOAT,
        Format::R32G32B32A32FLOAT => PixelFormat::R32G32B32A32FLOAT,
    }).collect()
}

/// Name and source image of each texture of the document, those of the
/// named content.
#[verifier::external_body]
fn gltf_textures(s: &GltfSource) -> (r: Vec<GltfTexture>)
    requires
        gltf_content(s@) is Ok,
    ensures
        r == gltf_content(s@)->Ok_0.textures,
{
    s.document.textures().map(|t| GltfTexture { name: t.name().map(str::to_string), image: t.source().index() }).collect()
}

/// Name, PBR base color factor (bits) and base color texture of each
/// material of the document, those of the named content.
#[verifier::external_body]
fn gltf_materials(s: &GltfSource) -> (r: Vec<GltfMaterial>)
    requires
        gltf_content(s@) is Ok,
    ensures
        r == gltf_content(s@)->Ok_0.materials,
{
    s.document.materials().map(|m| {
        let pbr = m.pbr_metallic_roughness();
        GltfMaterial {
            name: m.name().map(str::to_string),
            base_color: pbr.base_color_factor().map(|x| x.to_bits()),
            base_color_texture: pbr.base_color_texture().map(|info| info.texture().index()),
        }
    }).collect()
}

/// Name of each mesh of the document, that of the named content.
#[verifier::external_body]
fn gltf_mesh_names(s: &GltfSource) -> (r: Vec<Option<String>>)
    requires
        gltf_content(s@) is Ok,
    ensures
        r@ == gltf_content(s@)->Ok_0.meshes@.map_values(|m: GltfMesh| m.name),
{
    s.document.meshes().map(|m| m.name().map(str::to_string)).collect()
}

/// Positions and normals of a primitive.
pub open spec fn primitive_geometry(p: GltfPrimitive) -> (Option<Vec<[u32; 3]>>, Option<Vec<[u32; 3]>>) {
    (p.positions, p.normals)
}

/// First UV set, indices and material of a primitive.
pub open spec fn primitive_data(p: GltfPrimitive) -> (Option<Vec<[u32; 2]>>, Option<Vec<u32>>, Option<usize>) {
    (p.uvs, p.indices, p.material)
}

/// Positions and normals (bits) that the accessors of each primitive of each
/// mesh read from the buffers, those of the named content. The reader
/// subtracts one from an accessor's count, asserts its element size and
/// stride, and computes byte ranges; accessors on which these fail are left
/// out.
#[verifier::external_body]
fn gltf_primitive_geometry(s: &GltfSource) -> (r: Vec<Vec<(Option<Vec<[u32; 3]>>, Option<Vec<[u32; 3]>>)>>)
    requires
        gltf_content(s@) is Ok,
        gltf_layout(s@) matches Ok(l) && primitives_readable(l),
    ensures
        r@.len() == gltf_content(s@)->Ok_0.meshes@.len(),
        forall|m: int|
            0 <= m < r@.len() ==> (#[trigger] r@[m])@ == gltf_content(s@)->Ok_0.meshes@[m].primitives@.map_values(
                |p: GltfPrimitive| primitive_geometry(p),
            ),
{
    s.document.meshes().map(|mesh| mesh.primitives().map(|p| {
        let reader = p.reader(|buffer| Some(&s.buffers[buffer.index()].0));
        (
            reader.read_positions().map(|it| it.map(|v| v.map(|x| x.to_bits())).collect()),
            reader.read_normals().map(|it| it.map(|v| v.map(|x| x.to_bits())).collect()),
        )
    }).collect()).collect()
}

/// First UV set (bits), indices (widened) and material of each primitive of
/// each mesh, those of the named content. As for the geometry, accessors
/// the reader cannot take are left out, and so are UV and index accessors
/// of a component type it does not handle (it reaches `unreachable!`).
#[verifier::external_body]
fn gltf_primitive_data(s: &GltfSource) -> (r: Vec<Vec<(Option<Vec<[u32; 2]>>, Option<Vec<u32>>, Option<usize>)>>)
    requires
        gltf_content(s@) is Ok,
        gltf_layout(s@) matches Ok(l) && primitives_readable(l),
    ensures
        r@.len() == gltf_content(s@)->Ok_0.meshes@.len(),
        forall|m: int|
            0 <= m < r@.len() ==> (#[trigger] r@[m])@ == gltf_content(s@)->Ok_0.meshes@[m].primitives@.map_values(
                |p: GltfPrimitive| primitive_data(p),
            ),
{
    s.document.meshes().map(|mesh| mesh.primitives().map(|p| {
        let reader = p.reader(|buffer| Some(&s.buffers[buffer.index()].0));
        (
            reader.read_tex_coords(0).map(|it| it.into_f32().map(|v| v.map(|x| x.to_bits())).collect()),
            reader.read_indices().map(|it| it.into_u32().collect()),
            p.material().index(),
        )
    }).collect()).collect()
}

/// Primitives assembled from their geometry and their other data.
fn zip_primitives(
    geometry: Vec<(Option<Vec<[u32; 3]>>, Option<Vec<[u32; 3]>>)>,
    data: Vec<(Option<Vec<[u32; 2]>>, Option<Vec<u32>>, Option<usize>)>,
    Ghost(target): Ghost<Seq<GltfPrimitive>>,
) -> (r: Vec<GltfPrimitive>)
    requires
        geometry@ == target.map_values(|p: GltfPrimitive| primitive_geometry(p)),
        data@ == target.map_values(|p: GltfPrimitive| primitive_data(p)),
    ensures
        r@ == target,
{
    let mut geometry = geometry;
    let mut data = data;
    let n = geometry.len();
    let mut out: Vec<GltfPrimitive> = Vec::new();
    let mut k: usize = 0;
    while k < n
        invariant
            n == target.len(),
            k <= n,
            geometry@ == target.map_values(|p: GltfPrimitive| primitive_geometry(p)).subrange(k as int, n as int),
            data@ == target.map_values(|p: GltfPrimitive| primitive_data(p)).subrange(k as int, n as int),
            out@ == target.subrange(0, k as int),
        decreases n - k,
    {
        let (positions, normals) = geometry.remove(0);
        let (uvs, indices, material) = data.remove(0);
        let p = GltfPrimitive { positions, normals, uvs, indices, material };
        out.push(p);
        proof {
            assert(p == target[k as int]);
            assert(out@ =~= target.subrange(0, k + 1));
            assert(geometry@ =~= target.map_values(|p: GltfPrimitive| primitive_geometry(p)).subrange(k + 1, n as int));
            assert(data@ =~= target.map_values(|p: GltfPrimitive| primitive_data(p)).subrange(k + 1, n as int));
        }
        k = k + 1;
    }
    proof {
        assert(out@ =~= target);
    }
    out
}

/// Name, decomposed local transform (bits), mesh and children of each node
/// of the document, those of the named content.
#[verifier::external_body]
fn gltf_nodes(s: &GltfSource) -> (r: Vec<GltfNode>)
    requires
        gltf_content(s@) is Ok,
    ensures
        r == gltf_content(s@)->Ok_0.nodes,
{
    s.document.nodes().map(|n| {
        let (t, q, k) = n.transform().decomposed();
        GltfNode {
            name: n.name().map(str::to_string),
            transform: NodeTransform { translation: t.map(|x| x.to_bits()), rotation: q.map(|x| x.to_bits()), scale: k.map(|x| x.to_bits()) },
            mesh: n.mesh().map(|m| m.index()),
            children: n.children().map(|c| c.index()).collect(),
        }
    }).collect()
}

/// Root node indices of each scene of the document, those of the named content.
#[verifier::external_body]
fn gltf_scenes(s: &GltfSource) -> (r: Vec<Vec<usize>>)
    requires
        gltf_content(s@) is Ok,
    ensures
        r == gltf_content(s@)->Ok_0.scenes,
{
    s.document.scenes().map(|scene| scene.nodes().map(|n| n.index()).collect()).collect()
}

/// Index of the document's default scene, if it sets one, that of the named content.
#[verifier::external_body]
fn gltf_default_scene(s: &GltfSource) -> (r: Option<usize>)
    requires
        gltf_content(s@) is Ok,
    ensures
        r == gltf_content(s@)->Ok_0.default_scene,
{
    s.document.default_scene().map(|scene| scene.index())
}

/// Meshes with the same names and the same primitives, in order.
pub open spec fn meshes_alike(a: Seq<GltfMesh>, b: Seq<GltfMesh>) -> bool {
    &&& a.len() == b.len()
    &&& forall|i: int|
        0 <= i < a.len() ==> (#[trigger] a[i]).name == b[i].name && a[i].primitives@ == b[i].primitives@
}

proof fn lemma_primitives_alike(a: GltfMesh, b: GltfMesh, index: nat, j: int)
    requires
        a.name == b.name,
        a.primitives@ == b.primitives@,
    ensures
        primitives_upto(a, index, j) == primitives_upto(b, index, j),
    decreases j,
{
    if j > 0 {
        lemma_primitives_alike(a, b, index, j - 1);
    }
}

proof fn lemma_meshes_alike(a: Seq<GltfMesh>, b: Seq<GltfMesh>, k: int)
    requires
        meshes_alike(a, b),
        k <= a.len(),
    ensures
        meshes_upto(a, k) == meshes_upto(b, k),
        k >= 0 ==> prims_before(a, k) == prims_before(b, k),
    decreases k,
{
    if k > 0 {
        lemma_meshes_alike(a, b, k - 1);
        assert(a[k - 1].name == b[k - 1].name);
        lemma_primitives_alike(a[k - 1], b[k - 1], (k - 1) as nat, a[k - 1].primitives@.len() as int);
    }
}

/// Two documents with the same content, field by field.
pub open spec fn same_content(a: GltfDocument, b: GltfDocument) -> bool {
    &&& a.images@ == b.images@
    &&& a.textures@ == b.textures@
    &&& a.materials@ == b.materials@
    &&& meshes_alike(a.meshes@, b.meshes@)
    &&& a.nodes@ == b.nodes@
    &&& a.scenes@ == b.scenes@
    &&& a.default_scene == b.default_scene
}

/// The document read from a glTF source, assembled from its parts.
fn gltf_document(s: &GltfSource) -> (d: GltfDocument)
    requires
        gltf_content(s@) is Ok,
        gltf_layout(s@) matches Ok(l) && primitives_readable(l),
    ensures
        same_content(d, gltf_content(s@)->Ok_0),
{
    let ghost c = gltf_content(s@)->Ok_0;
    let mut pixels = gltf_image_pixels(s);
    let formats = gltf_image_formats(s);
    let mut images: Vec<GltfImage> = Vec::new();
    let n = pixels.len();
    let mut k: usize = 0;
    while k < n
        invariant
            n == c.images@.len(),
            formats@ == c.images@.map_values(|i: GltfImage| i.format),
            k <= n,
            pixels@.len() == n - k,
            forall|j: int|
                0 <= j < pixels@.len() ==> (#[trigger] pixels@[j]).0 == c.images@[j + k].pixels && pixels@[j].1
                    == c.images@[j + k].width && pixels@[j].2 == c.images@[j + k].height,
            images@ == c.images@.subrange(0, k as int),
        decreases n - k,
    {
        let (p, w, h) = pixels.remove(0);
        let image = GltfImage { format: formats[k], pixels: p, width: w, height: h };
        images.push(image);
        proof {
            assert(image == c.images@[k as int]);
            assert(images@ =~= c.images@.subrange(0, k + 1));
        }
        k = k + 1;
    }
    let mut names = gltf_mesh_names(s);
    let mut geometry = gltf_primitive_geometry(s);
    let mut data = gltf_primitive_data(s);
    let mut meshes: Vec<GltfMesh> = Vec::new();
    let m = names.len();
    let mut j: usize = 0;
    while j < m
        invariant
            m == c.meshes@.len(),
            j <= m,
            names@ == c.meshes@.map_values(|x: GltfMesh| x.name).subrange(j as int, m as int),
            geometry@.len() == m - j,
            data@.len() == m - j,
            forall|q: int|
                0 <= q < geometry@.len() ==> (#[trigger] geometry@[q])@ == c.meshes@[q + j].primitives@.map_values(
                    |p: GltfPrimitive| primitive_geometry(p),
                ),
            forall|q: int|
                0 <= q < data@.len() ==> (#[trigger] data@[q])@ == c.meshes@[q + j].primitives@.map_values(
                    |p: GltfPrimitive| primitive_data(p),
                ),
            meshes@.len() == j,
            forall|q: int|
                0 <= q < j ==> (#[trigger] meshes@[q]).name == c.meshes@[q].name && meshes@[q].primitives@
                    == c.meshes@[q].primitives@,
        decreases m - j,
    {
        let ghost old_geometry = geometry@;
        let ghost old_data = data@;
        let name = names.remove(0);
        let g = geometry.remove(0);
        let d = data.remove(0);
        let primitives = zip_primitives(g, d, Ghost(c.meshes@[j as int].primitives@));
        let mesh = GltfMesh { name, primitives };
        proof {
            assert(primitives@ == c.meshes@[j as int].primitives@);
        }
        meshes.push(mesh);
        proof {
            assert(names@ =~= c.meshes@.map_values(|x: GltfMesh| x.name).subrange(j + 1, m as int));
            assert forall|q: int| 0 <= q < geometry@.len() implies (#[trigger] geometry@[q])@
                == c.meshes@[q + j + 1].primitives@.map_values(|p: GltfPrimitive| primitive_geometry(p)) by {
                assert(geometry@[q] == old_geometry[q + 1]);
            }
            assert forall|q: int| 0 <= q < data@.len() implies (#[trigger] data@[q])@
                == c.meshes@[q + j + 1].primitives@.map_values(|p: GltfPrimitive| primitive_data(p)) by {
                assert(data@[q] == old_data[q + 1]);
            }
        }
        j = j + 1;
    }
    proof {
        assert(images@ =~= c.images@);
    }
    GltfDocument {
        images,
        textures: gltf_textures(s),
        materials: gltf_materials(s),
        meshes,
        nodes: gltf_nodes(s),
        scenes: gltf_scenes(s),
        default_scene: gltf_default_scene(s),
    }
}

proof fn lemma_same_content_imported(a: GltfDocument, b: GltfDocument, r: Result<GltfImportResult, ImportError>)
    requires
        same_content(a, b),
    ensures
        document_imported(a, r) == document_imported(b, r),
{
    lemma_meshes_alike(a.meshes@, b.meshes@, a.meshes@.len() as int);
    assert forall|m: int| 0 <= m < a.meshes@.len() implies prims_before(a.meshes@, m) == prims_before(
        b.meshes@,
        m,
    ) by {
        lemma_meshes_alike(a.meshes@, b.meshes@, m);
    }
    assert(mesh_firsts(a.meshes@) =~= mesh_firsts(b.meshes@));
}

/// Why importing these bytes stops before the document is imported, if it
/// does: a GLB length below its header size, the `gltf` crate's error on
/// parsing, a buffer URI or an image source the crate's loader cannot take,
/// the crate's error on loading, or a primitive accessor its reader cannot
/// read.
pub open spec fn gltf_refusal(bytes: Seq<u8>) -> Option<ImportErrorModel> {
    if glb_length_underflows(bytes) {
        Some(ImportErrorModel::Gltf("GLB header declares a length shorter than the header"@))
    } else {
        match gltf_layout(bytes) {
            Err(m) => Some(ImportErrorModel::Gltf(m)),
            Ok(l) => if !buffers_loadable(l) {
                Some(ImportErrorModel::Gltf("glTF buffer URI does not percent-decode to UTF-8"@))
            } else if !images_loadable(l) {
                Some(ImportErrorModel::Gltf("glTF image lacks its MIME type or URI, or lies outside its buffer"@))
            } else {
                match gltf_content(bytes) {
                    Err(m) => Some(ImportErrorModel::Gltf(m)),
                    Ok(_) => if !primitives_readable(l) {
                        Some(ImportErrorModel::Invalid("glTF primitive accessor cannot be read"@))
                    } else {
                        None
                    },
                }
            },
        }
    }
}

/// Imports a glTF or GLB file held in memory: the refusal of what the
/// `gltf` crate cannot take, its reading error, or what
/// [`import_gltf_document`] gives on the document read.
pub fn import_gltf_bytes(bytes: &[u8]) -> (r: Result<GltfImportResult, ImportError>)
    ensures
        match gltf_refusal(bytes@) {
            Some(e) => r matches Err(x) && x@ == e,
            None => document_imported(gltf_content(bytes@)->Ok_0, r),
        },
{
    if glb_length_underflows_exec(bytes) {
        return Err(ImportError::Gltf("GLB header declares a length shorter than the header".to_owned()));
    }
    let layout = match read_layout(bytes) {
        Err(m) => {
            return Err(ImportError::Gltf(m));
        },
        Ok(l) => l,
    };
    if !buffers_loadable_exec(&layout) {
        return Err(ImportError::Gltf("glTF buffer URI does not percent-decode to UTF-8".to_owned()));
    }
    if !images_loadable_exec(&layout) {
        return Err(ImportError::Gltf("glTF image lacks its MIME type or URI, or lies outside its buffer".to_owned()));
    }
    match read_gltf(bytes) {
        Err(m) => Err(ImportError::Gltf(m)),
        Ok(source) => {
            if !primitives_readable_exec(&layout) {
                return Err(ImportError::Invalid("glTF primitive accessor cannot be read".to_owned()));
            }
            let doc = gltf_document(&source);
            let ghost d = doc;
            let r = import_gltf_document(doc);
            proof {
                lemma_same_content_imported(d, gltf_content(bytes@)->Ok_0, r);
            }
            r
        },
    }
}

/// The imported mesh of the first primitive of mesh `m`.
pub open spec fn first_primitive_view(meshes: Seq<GltfMesh>, m: int) -> MeshView {
    primitive_outcome(
        meshes[m].primitives@[0],
        item_name_spec(name_view(meshes[m].name), "mesh"@, m as nat),
        meshes[m].primitives@.len(),
        0,
    )->Ok_0
}

proof fn lemma_primitives_upto_shape(mesh: GltfMesh, index: nat, j: int)
    requires
        0 <= j,
        primitives_upto(mesh, index, j) is Ok,
    ensures
        primitives_upto(mesh, index, j)->Ok_0.len() == j,
        j > 0 ==> primitive_outcome(
            mesh.primitives@[0],
            item_name_spec(name_view(mesh.name), "mesh"@, index),
            mesh.primitives@.len(),
            0,
        ) is Ok && primitives_upto(mesh, index, j)->Ok_0[0] == primitive_outcome(
            mesh.primitives@[0],
            item_name_spec(name_view(mesh.name), "mesh"@, index),
            mesh.primitives@.len(),
            0,
        )->Ok_0,
    decreases j,
{
    if j > 0 {
        lemma_primitives_upto_shape(mesh, index, j - 1);
    }
}

proof fn lemma_meshes_upto_shape(meshes: Seq<GltfMesh>, k: int)
    requires
        0 <= k <= meshes.len(),
        meshes_upto(meshes, k) is Ok,
    ensures
        meshes_upto(meshes, k)->Ok_0.len() == prims_before(meshes, k),
        forall|m: int|
            0 <= m < k && meshes[m].primitives@.len() > 0 ==> prims_before(meshes, m) < prims_before(meshes, k)
                && meshes_upto(meshes, k)->Ok_0[prims_before(meshes, m) as int] == #[trigger] first_primitive_view(
                meshes,
                m,
            ),
    decreases k,
{
    if k > 0 {
        lemma_meshes_upto_shape(meshes, k - 1);
        let mesh = meshes[k - 1];
        lemma_primitives_upto_shape(mesh, (k - 1) as nat, mesh.primitives@.len() as int);
        let done = meshes_upto(meshes, k - 1)->Ok_0;
        let more = primitives_upto(mesh, (k - 1) as nat, mesh.primitives@.len() as int)->Ok_0;
        assert(meshes_upto(meshes, k)->Ok_0 == done + more);
        assert forall|m: int|
            0 <= m < k && meshes[m].primitives@.len() > 0 implies prims_before(meshes, m) < prims_before(meshes, k)
                && meshes_upto(meshes, k)->Ok_0[prims_before(meshes, m) as int] == #[trigger] first_primitive_view(
                meshes,
                m,
            ) by {
            if m == k - 1 {
                assert((done + more)[done.len() as int] == more[0]);
            } else {
                lemma_prims_before_grows(meshes, m + 1, k - 1);
                assert((done + more)[prims_before(meshes, m) as int] == done[prims_before(meshes, m) as int]);
            }
        }
    }
}

/// A node's mesh is among the imported meshes: when [`import_gltf_document`]
/// succeeds, the index it gives a node instantiating a mesh with primitives
/// is below the number of imported meshes, and names that mesh's first
/// primitive imported.
pub proof fn law_node_mesh_is_imported(meshes: Seq<GltfMesh>, imported: Seq<MeshView>, m: int)
    requires
        meshes_upto(meshes, meshes.len() as int) == Ok::<Seq<MeshView>, Seq<char>>(imported),
        0 <= m < meshes.len(),
        meshes[m].primitives@.len() > 0,
    ensures
        mesh_firsts(meshes)[m] matches Some(f) && 0 <= f < imported.len() && imported[f] == first_primitive_view(
            meshes,
            m,
        ),
{
    lemma_meshes_upto_shape(meshes, meshes.len() as int);
    assert(first_primitive_view(meshes, m) == first_primitive_view(meshes, m));
}

/// The mesh asset an imported entity references, with the name of the
/// submesh (the imported mesh's name).
#[derive(Debug, Clone, PartialEq, Eq)]
pub struct MeshBinding {
    pub asset: AssetId,
    pub submesh: String,
}

/// A scene operation that creates one imported entity.
#[derive(Debug, Clone, PartialEq, Eq)]
pub struct CreateImportedEntity {
    /// Id of the new entity.
    pub entity_id: u128,
    /// Id of its parent entity, for a node below the root.
    pub parent: Option<u128>,
    /// The node's name, if any.
    pub name: Option<String>,
    /// The node's local transform.
    pub transform: NodeTransform,
    /// The mesh asset of the node's mesh, if any.
    pub mesh: Option<MeshBinding>,
    /// The material asset of that mesh's material, if any.
    pub material: Option<AssetId>,
}

/// Mathematical content of a [`CreateImportedEntity`].
pub struct CreateEntityView {
    pub entity_id: u128,
    pub parent: Option<u128>,
    pub name: Option<Seq<char>>,
    pub transform: NodeTransform,
    pub mesh: Option<(AssetId, Seq<char>)>,
    pub material: Option<AssetId>,
}

pub open spec fn create_view(op: CreateImportedEntity) -> CreateEntityView {
    CreateEntityView {
        entity_id: op.entity_id,
        parent: op.parent,
        name: name_view(op.name),
        transform: op.transform,
        mesh: match op.mesh {
            Some(b) => Some((b.asset, b.submesh@)),
            None => None,
        },
        material: op.material,
    }
}

/// Number of nodes in the tree under `n`, `n` included.
pub open spec fn node_count(n: ImportedNode) -> nat
    decreases n, n.children@.len() + 1,
{
    1 + kids_count(n, n.children@.len() as int)
}

/// Number of nodes under the first `k` children of `n`.
pub open spec fn kids_count(n: ImportedNode, k: int) -> nat
    decreases n, k,
{
    if k <= 0 || k > n.children@.len() {
        0
    } else {
        kids_count(n, k - 1) + node_count(n.children@[k - 1])
    }
}

/// Number of nodes in the trees of the first `k` roots.
pub open spec fn roots_count(roots: Seq<ImportedNode>, k: int) -> nat
    decreases k,
{
    if k <= 0 {
        0
    } else {
        roots_count(roots, k - 1) + node_count(roots[k - 1])
    }
}

/// The asset bindings of the nodes can be looked up: every mesh index
/// names an imported mesh with an asset id, and every material index of
/// such a mesh a material asset id.
pub open spec fn bindings_known(
    n: ImportedNode,
    meshes: Seq<ImportedMesh>,
    mesh_ids: Seq<AssetId>,
    material_ids: Seq<AssetId>,
) -> bool
    decreases n, n.children@.len() + 1,
{
    &&& n.mesh_index matches Some(i) ==> i < meshes.len() && i < mesh_ids.len() && (
    meshes[i as int].material_index matches Some(j) ==> j < material_ids.len())
    &&& kids_known(n, n.children@.len() as int, meshes, mesh_ids, material_ids)
}

pub open spec fn kids_known(
    n: ImportedNode,
    k: int,
    meshes: Seq<ImportedMesh>,
    mesh_ids: Seq<AssetId>,
    material_ids: Seq<AssetId>,
) -> bool
    decreases n, k,
{
    if k <= 0 || k > n.children@.len() {
        true
    } else {
        kids_known(n, k - 1, meshes, mesh_ids, material_ids) && bindings_known(
            n.children@[k - 1],
            meshes,
            mesh_ids,
            material_ids,
        )
    }
}

/// The operation creating node `n` with id `id` under `parent`.
pub open spec fn create_op(
    n: ImportedNode,
    parent: Option<u128>,
    id: u128,
    meshes: Seq<ImportedMesh>,
    mesh_ids: Seq<AssetId>,
    material_ids: Seq<AssetId>,
) -> CreateEntityView {
    CreateEntityView {
        entity_id: id,
        parent,
        name: name_view(n.name),
        transform: n.transform,
        mesh: match n.mesh_index {
            Some(i) => Some((mesh_ids[i as int], meshes[i as int].name@)),
            None => None,
        },
        material: match n.mesh_index {
            Some(i) => match meshes[i as int].material_index {
                Some(j) => Some(material_ids[j as int]),
                None => None,
            },
            None => None,
        },
    }
}

/// The operations creating the tree under `n` in pre-order: `n` first,
/// then each child's tree, with ids taken from `ids` in that order from
/// `start`.
pub open spec fn node_ops(
    n: ImportedNode,
    parent: Option<u128>,
    ids: Seq<u128>,
    start: int,
    meshes: Seq<ImportedMesh>,
    mesh_ids: Seq<AssetId>,
    material_ids: Seq<AssetId>,
) -> Seq<CreateEntityView>
    decreases n, n.children@.len() + 1,
{
    seq![create_op(n, parent, ids[start], meshes, mesh_ids, material_ids)] + kids_ops(
        n,
        n.children@.len() as int,
        ids[start],
        ids,
        start + 1,
        meshes,
        mesh_ids,
        material_ids,
    )
}

/// The operations creating the trees of the first `k` children of `n`,
/// whose entity has id `id`.
pub open spec fn kids_ops(
    n: ImportedNode,
    k: int,
    id: u128,
    ids: Seq<u128>,
    start: int,
    meshes: Seq<ImportedMesh>,
    mesh_ids: Seq<AssetId>,
    material_ids: Seq<AssetId>,
) -> Seq<CreateEntityView>
    decreases n, k,
{
    if k <= 0 || k > n.children@.len() {
        Seq::empty()
    } else {
        kids_ops(n, k - 1, id, ids, start, meshes, mesh_ids, material_ids) + node_ops(
            n.children@[k - 1],
            Some(id),
            ids,
            start + kids_count(n, k - 1),
            meshes,
            mesh_ids,
            material_ids,
        )
    }
}

/// The operations creating the trees of the first `k` roots.
pub open spec fn roots_ops(
    roots: Seq<ImportedNode>,
    k: int,
    ids: Seq<u128>,
    meshes: Seq<ImportedMesh>,
    mesh_ids: Seq<AssetId>,
    material_ids: Seq<AssetId>,
) -> Seq<CreateEntityView>
    decreases k,
{
    if k <= 0 {
        Seq::empty()
    } else {
        roots_ops(roots, k - 1, ids, meshes, mesh_ids, material_ids) + node_ops(
            roots[k - 1],
            None,
            ids,
            roots_count(roots, k - 1) as int,
            meshes,
            mesh_ids,
            material_ids,
        )
    }
}

proof fn lemma_kids_count_mono(n: ImportedNode, i: int, j: int)
    requires
        0 <= i <= j <= n.children@.len(),
    ensures
        kids_count(n, i) <= kids_count(n, j),
    decreases j - i,
{
    if i < j {
        lemma_kids_count_mono(n, i, j - 1);
    }
}

proof fn lemma_kids_known(
    n: ImportedNode,
    k: int,
    i: int,
    meshes: Seq<ImportedMesh>,
    mesh_ids: Seq<AssetId>,
    material_ids: Seq<AssetId>,
)
    requires
        0 <= i < k <= n.children@.len(),
        kids_known(n, k, meshes, mesh_ids, material_ids),
    ensures
        bindings_known(n.children@[i], meshes, mesh_ids, material_ids),
    decreases k,
{
    if i < k - 1 {
        lemma_kids_known(n, k - 1, i, meshes, mesh_ids, material_ids);
    }
}

fn copy_name(name: &Option<String>) -> (r: Option<String>)
    ensures
        name_view(r) == name_view(*name),
{
    match name {
        Some(n) => Some(n.clone()),
        None => None,
    }
}

/// Appends the operations creating the tree under `node` in pre-order, with
/// ids from `ids` starting at `next`; returns the index of the next unused id.
fn append_node_operations(
    node: &ImportedNode,
    parent: Option<u128>,
    meshes: &Vec<ImportedMesh>,
    mesh_ids: &Vec<AssetId>,
    material_ids: &Vec<AssetId>,
    ids: &Vec<u128>,
    next: usize,
    ops: &mut Vec<CreateImportedEntity>,
) -> (r: usize)
    requires
        bindings_known(*node, meshes@, mesh_ids@, material_ids@),
        next + node_count(*node) <= ids.len(),
    ensures
        r == next + node_count(*node),
        final(ops)@.map_values(|o: CreateImportedEntity| create_view(o)) == old(ops)@.map_values(
            |o: CreateImportedEntity| create_view(o),
        ) + node_ops(*node, parent, ids@, next as int, meshes@, mesh_ids@, material_ids@),
    decreases node,
{
    let id = ids[next];
    let mesh = match node.mesh_index {
        Some(i) => Some(MeshBinding { asset: mesh_ids[i], submesh: meshes[i].name.clone() }),
        None => None,
    };
    let material = match node.mesh_index {
        Some(i) => match meshes[i].material_index {
            Some(j) => Some(material_ids[j]),
            None => None,
        },
        None => None,
    };
    let op = CreateImportedEntity {
        entity_id: id,
        parent,
        name: copy_name(&node.name),
        transform: node.transform,
        mesh,
        material,
    };
    let ghost base = old(ops)@.map_values(|o: CreateImportedEntity| create_view(o));
    let ghost first = create_op(*node, parent, id, meshes@, mesh_ids@, material_ids@);
    assert(create_view(op) == first);
    let ghost before_push = ops@;
    ops.push(op);
    assert(ops@.map_values(|o: CreateImportedEntity| create_view(o)) =~= base + seq![first]) by {
        assert(ops@ == before_push.push(op));
    }
    let mut k: usize = next + 1;
    let mut i: usize = 0;
    proof {
        lemma_kids_count_mono(*node, 0, node.children@.len() as int);
    }
    while i < node.children.len()
        invariant
            i <= node.children.len(),
            bindings_known(*node, meshes@, mesh_ids@, material_ids@),
            next + node_count(*node) <= ids.len(),
            id == ids@[next as int],
            base == old(ops)@.map_values(|o: CreateImportedEntity| create_view(o)),
            first == create_op(*node, parent, id, meshes@, mesh_ids@, material_ids@),
            k == next + 1 + kids_count(*node, i as int),
            ops@.map_values(|o: CreateImportedEntity| create_view(o)) == base + seq![first] + kids_ops(
                *node,
                i as int,
                id,
                ids@,
                next + 1,
                meshes@,
                mesh_ids@,
                material_ids@,
            ),
        decreases node.children.len() - i,
    {
        proof {
            lemma_kids_known(
                *node,
                node.children@.len() as int,
                i as int,
                meshes@,
                mesh_ids@,
                material_ids@,
            );
            lemma_kids_count_mono(*node, i + 1, node.children@.len() as int);
        }
        let ghost prev = ops@.map_values(|o: CreateImportedEntity| create_view(o));
        k = append_node_operations(&node.children[i], Some(id), meshes, mesh_ids, material_ids, ids, k, ops);
        proof {
            let more = node_ops(node.children@[i as int], Some(id), ids@, (next + 1 + kids_count(*node, i as int)) as int, meshes@, mesh_ids@, material_ids@);
            assert(kids_ops(*node, i + 1, id, ids@, next + 1, meshes@, mesh_ids@, material_ids@) == kids_ops(*node, i as int, id, ids@, next + 1, meshes@, mesh_ids@, material_ids@) + more);
            assert(prev + more =~= base + seq![first] + kids_ops(*node, i + 1, id, ids@, next + 1, meshes@, mesh_ids@, material_ids@));
        }
        i = i + 1;
    }
    proof {
        assert(base + seq![first] + kids_ops(*node, node.children@.len() as int, id, ids@, next + 1, meshes@, mesh_ids@, material_ids@)
            =~= base + node_ops(*node, parent, ids@, next as int, meshes@, mesh_ids@, material_ids@));
    }
    k
}

/// Scene operations that create one entity per imported node, in pre-order
/// (each node before its children, roots in order), binding each node's
/// mesh and its material to their assets; entity ids are taken from
/// `entity_ids` in that order.
pub fn import_result_to_scene_operations(
    import: &GltfImportResult,
    mesh_asset_ids: &Vec<AssetId>,
    material_asset_ids: &Vec<AssetId>,
    entity_ids: &Vec<u128>,
) -> (r: Vec<CreateImportedEntity>)
    requires
        forall|i: int|
            0 <= i < import.root_nodes@.len() ==> bindings_known(
                #[trigger] import.root_nodes@[i],
                import.meshes@,
                mesh_asset_ids@,
                material_asset_ids@,
            ),
        roots_count(import.root_nodes@, import.root_nodes@.len() as int) <= entity_ids.len(),
    ensures
        r@.map_values(|o: CreateImportedEntity| create_view(o)) == roots_ops(
            import.root_nodes@,
            import.root_nodes@.len() as int,
            entity_ids@,
            import.meshes@,
            mesh_asset_ids@,
            material_asset_ids@,
        ),
{
    let mut ops: Vec<CreateImportedEntity> = Vec::new();
    let mut next: usize = 0;
    let mut i: usize = 0;
    assert(ops@.map_values(|o: CreateImportedEntity| create_view(o)) =~= Seq::empty());
    while i < import.root_nodes.len()
        invariant
            i <= import.root_nodes.len(),
            forall|j: int|
                0 <= j < import.root_nodes@.len() ==> bindings_known(
                    #[trigger] import.root_nodes@[j],
                    import.meshes@,
                    mesh_asset_ids@,
                    material_asset_ids@,
                ),
            roots_count(import.root_nodes@, import.root_nodes@.len() as int) <= entity_ids.len(),
            next == roots_count(import.root_nodes@, i as int),
            ops@.map_values(|o: CreateImportedEntity| create_view(o)) == roots_ops(
                import.root_nodes@,
                i as int,
                entity_ids@,
                import.meshes@,
                mesh_asset_ids@,
                material_asset_ids@,
            ),
        decreases import.root_nodes.len() - i,
    {
        proof {
            lemma_roots_count_mono(import.root_nodes@, i + 1, import.root_nodes@.len() as int);
        }
        next = append_node_operations(
            &import.root_nodes[i],
            None,
            &import.meshes,
            mesh_asset_ids,
            material_asset_ids,
            entity_ids,
            next,
            &mut ops,
        );
        i = i + 1;
    }
    ops
}

proof fn lemma_roots_count_mono(roots: Seq<ImportedNode>, i: int, j: int)
    requires
        0 <= i <= j,
    ensures
        roots_count(roots, i) <= roots_count(roots, j),
    decreases j - i,
{
    if i < j {
        lemma_roots_count_mono(roots, i, j - 1);
    }
}

/// The operations of the tree under `n` take the ids from `start` in order;
/// the first has parent `parent`, every other one the id of an earlier one.
proof fn lemma_node_ops(
    n: ImportedNode,
    parent: Option<u128>,
    ids: Seq<u128>,
    start: int,
    meshes: Seq<ImportedMesh>,
    mesh_ids: Seq<AssetId>,
    material_ids: Seq<AssetId>,
)
    requires
        0 <= start,
        start + node_count(n) <= ids.len(),
    ensures
        node_ops(n, parent, ids, start, meshes, mesh_ids, material_ids).len() == node_count(n),
        forall|k: int|
            0 <= k < node_count(n) ==> (#[trigger] node_ops(n, parent, ids, start, meshes, mesh_ids, material_ids)[k]).entity_id
                == ids[start + k],
        node_ops(n, parent, ids, start, meshes, mesh_ids, material_ids)[0].parent == parent,
        forall|k: int|
            1 <= k < node_count(n) ==> exists|j: int|
                start <= j < start + k && (#[trigger] node_ops(n, parent, ids, start, meshes, mesh_ids, material_ids)[k]).parent
                    == Some(#[trigger] ids[j]),
    decreases n, n.children@.len() + 1,
{
    let len = n.children@.len() as int;
    lemma_kids_ops(n, len, ids[start], ids, start + 1, meshes, mesh_ids, material_ids);
    let s = node_ops(n, parent, ids, start, meshes, mesh_ids, material_ids);
    let b = kids_ops(n, len, ids[start], ids, start + 1, meshes, mesh_ids, material_ids);
    assert forall|k: int| 1 <= k < node_count(n) implies exists|j: int|
        start <= j < start + k && (#[trigger] s[k]).parent == Some(#[trigger] ids[j]) by {
        assert(s[k] == b[k - 1]);
        if b[k - 1].parent == Some(ids[start]) {
            assert(start <= start < start + k && s[k].parent == Some(ids[start]));
        } else {
            let j = choose|j: int| start + 1 <= j < start + 1 + (k - 1) && b[k - 1].parent == Some(#[trigger] ids[j]);
            assert(start <= j < start + k && s[k].parent == Some(ids[j]));
        }
    }
    assert forall|k: int| 0 <= k < node_count(n) implies (#[trigger] s[k]).entity_id == ids[start + k] by {
        if k > 0 {
            assert(s[k] == b[k - 1]);
        }
    }
}

/// The operations of the trees of the first `k` children of `n` take the
/// ids from `start` in order; each has parent `id` or the id of an earlier one.
proof fn lemma_kids_ops(
    n: ImportedNode,
    k: int,
    id: u128,
    ids: Seq<u128>,
    start: int,
    meshes: Seq<ImportedMesh>,
    mesh_ids: Seq<AssetId>,
    material_ids: Seq<AssetId>,
)
    requires
        0 <= k <= n.children@.len(),
        0 <= start,
        start + kids_count(n, k) <= ids.len(),
    ensures
        kids_ops(n, k, id, ids, start, meshes, mesh_ids, material_ids).len() == kids_count(n, k),
        forall|m: int|
            0 <= m < kids_count(n, k) ==> (#[trigger] kids_ops(n, k, id, ids, start, meshes, mesh_ids, material_ids)[m]).entity_id
                == ids[start + m],
        forall|m: int|
            0 <= m < kids_count(n, k) ==> (#[trigger] kids_ops(n, k, id, ids, start, meshes, mesh_ids, material_ids)[m]).parent
                == Some(id) || exists|j: int|
                start <= j < start + m && kids_ops(n, k, id, ids, start, meshes, mesh_ids, material_ids)[m].parent
                    == Some(#[trigger] ids[j]),
    decreases n, k,
{
    if k > 0 {
        lemma_kids_count_mono(n, k - 1, k);
        lemma_kids_ops(n, k - 1, id, ids, start, meshes, mesh_ids, material_ids);
        let a = kids_ops(n, k - 1, id, ids, start, meshes, mesh_ids, material_ids);
        let off = kids_count(n, k - 1) as int;
        lemma_node_ops(n.children@[k - 1], Some(id), ids, start + off, meshes, mesh_ids, material_ids);
        let b = node_ops(n.children@[k - 1], Some(id), ids, start + off, meshes, mesh_ids, material_ids);
        let s = kids_ops(n, k, id, ids, start, meshes, mesh_ids, material_ids);
        assert(s == a + b);
        assert forall|m: int| 0 <= m < kids_count(n, k) implies (#[trigger] s[m]).entity_id == ids[start + m] by {
            if m >= off {
                assert(s[m] == b[m - off]);
            } else {
                assert(s[m] == a[m]);
            }
        }
        assert forall|m: int| 0 <= m < kids_count(n, k) implies (#[trigger] s[m]).parent == Some(id) || exists|j: int|
            start <= j < start + m && s[m].parent == Some(#[trigger] ids[j]) by {
            if m >= off {
                assert(s[m] == b[m - off]);
                if m > off {
                    let j = choose|j: int| start + off <= j < start + off + (m - off) && b[m - off].parent == Some(#[trigger] ids[j]);
                    assert(start <= j < start + m && s[m].parent == Some(ids[j]));
                }
            } else {
                assert(s[m] == a[m]);
                if a[m].parent != Some(id) {
                    let j = choose|j: int| start <= j < start + m && a[m].parent == Some(#[trigger] ids[j]);
                    assert(start <= j < start + m && s[m].parent == Some(ids[j]));
                }
            }
        }
    }
}

/// Importing a scene tree creates one entity per node, with the entity ids
/// in the order given, and every entity's parent is created before it.
pub proof fn law_parents_created_first(
    roots: Seq<ImportedNode>,
    ids: Seq<u128>,
    meshes: Seq<ImportedMesh>,
    mesh_ids: Seq<AssetId>,
    material_ids: Seq<AssetId>,
)
    requires
        roots_count(roots, roots.len() as int) <= ids.len(),
    ensures
        roots_ops(roots, roots.len() as int, ids, meshes, mesh_ids, material_ids).len() == roots_count(
            roots,
            roots.len() as int,
        ),
        forall|k: int|
            0 <= k < roots_count(roots, roots.len() as int) ==> (#[trigger] roots_ops(
                roots,
                roots.len() as int,
                ids,
                meshes,
                mesh_ids,
                material_ids,
            )[k]).entity_id == ids[k],
        forall|k: int|
            0 <= k < roots_count(roots, roots.len() as int) && (#[trigger] roots_ops(
                roots,
                roots.len() as int,
                ids,
                meshes,
                mesh_ids,
                material_ids,
            )[k]).parent is Some ==> exists|j: int|
                0 <= j < k && roots_ops(roots, roots.len() as int, ids, meshes, mesh_ids, material_ids)[k].parent
                    == Some(roots_ops(roots, roots.len() as int, ids, meshes, mesh_ids, material_ids)[j].entity_id),
{
    let n = roots.len() as int;
    lemma_roots_ops(roots, n, ids, meshes, mesh_ids, material_ids);
    let s = roots_ops(roots, n, ids, meshes, mesh_ids, material_ids);
    assert forall|k: int| 0 <= k < roots_count(roots, n) && (#[trigger] s[k]).parent is Some implies exists|j: int|
        0 <= j < k && s[k].parent == Some(s[j].entity_id) by {
        let j = choose|j: int| 0 <= j < k && s[k].parent == Some(#[trigger] ids[j]);
        assert(s[j].entity_id == ids[j]);
    }
}

proof fn lemma_roots_ops(
    roots: Seq<ImportedNode>,
    r: int,
    ids: Seq<u128>,
    meshes: Seq<ImportedMesh>,
    mesh_ids: Seq<AssetId>,
    material_ids: Seq<AssetId>,
)
    requires
        0 <= r <= roots.len(),
        roots_count(roots, r) <= ids.len(),
    ensures
        roots_ops(roots, r, ids, meshes, mesh_ids, material_ids).len() == roots_count(roots, r),
        forall|k: int|
            0 <= k < roots_count(roots, r) ==> (#[trigger] roots_ops(roots, r, ids, meshes, mesh_ids, material_ids)[k]).entity_id
                == ids[k],
        forall|k: int|
            0 <= k < roots_count(roots, r) && (#[trigger] roots_ops(roots, r, ids, meshes, mesh_ids, material_ids)[k]).parent
                is Some ==> exists|j: int|
                0 <= j < k && roots_ops(roots, r, ids, meshes, mesh_ids, material_ids)[k].parent == Some(
                    #[trigger] ids[j],
                ),
    decreases r,
{
    if r > 0 {
        lemma_roots_count_mono(roots, r - 1, r);
        lemma_roots_ops(roots, r - 1, ids, meshes, mesh_ids, material_ids);
        let a = roots_ops(roots, r - 1, ids, meshes, mesh_ids, material_ids);
        let off = roots_count(roots, r - 1) as int;
        lemma_node_ops(roots[r - 1], None, ids, off, meshes, mesh_ids, material_ids);
        let b = node_ops(roots[r - 1], None, ids, off, meshes, mesh_ids, material_ids);
        let s = roots_ops(roots, r, ids, meshes, mesh_ids, material_ids);
        assert(s == a + b);
        assert forall|k: int| 0 <= k < roots_count(roots, r) implies (#[trigger] s[k]).entity_id == ids[k] by {
            if k >= off {
                assert(s[k] == b[k - off]);
            } else {
                assert(s[k] == a[k]);
            }
        }
        assert forall|k: int| 0 <= k < roots_count(roots, r) && (#[trigger] s[k]).parent is Some implies exists|j: int|
            0 <= j < k && s[k].parent == Some(#[trigger] ids[j]) by {
            if k >= off {
                assert(s[k] == b[k - off]);
                if k > off {
                    let j = choose|j: int| off <= j < off + (k - off) && b[k - off].parent == Some(#[trigger] ids[j]);
                    assert(0 <= j < k && s[k].parent == Some(ids[j]));
                }
            } else {
                assert(s[k] == a[k]);
                let j = choose|j: int| 0 <= j < k && a[k].parent == Some(#[trigger] ids[j]);
                assert(0 <= j < k && s[k].parent == Some(ids[j]));
            }
        }
    }
}

} // verus!
