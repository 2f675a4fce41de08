//! The layout of a glTF or GLB file as the `gltf` crate parses and
//! validates it, before any buffer or image is loaded: buffers, buffer views,
//! image sources, accessors and the accessors of each mesh primitive. The
//! import checks this layout before loading and reading, refusing what the
//! crate's loaders and readers cannot take.
use vstd::prelude::*;
use vstd::utf8::valid_utf8;

use crate::text::{utf8_error_text, utf8_text};
use gltf::accessor::DataType;
use gltf::mesh::Semantic;

verus! {

/// Component type of an accessor.
#[derive(Debug, Clone, Copy, PartialEq, Eq)]
pub enum ComponentKind {
    I8,
    U8,
    I16,
    U16,
    U32,
    F32,
}

/// A buffer: its URI as bytes (none for the GLB binary chunk) and its
/// declared length in bytes.
#[derive(Debug, Clone, PartialEq, Eq)]
pub struct BufferShape {
    pub uri: Option<Vec<u8>>,
    pub length: usize,
}

/// A buffer view: its buffer, byte offset, byte length and stride (a stride
/// of zero counts as none).
#[derive(Debug, Clone, Copy, PartialEq, Eq)]
pub struct ViewShape {
    pub buffer: usize,
    pub offset: usize,
    pub length: usize,
    pub stride: Option<usize>,
}

/// An image: its buffer view, if any, and whether it names a MIME type and
/// a URI.
#[derive(Debug, Clone, Copy, PartialEq, Eq)]
pub struct ImageShape {
    pub view: Option<usize>,
    pub mime_type: bool,
    pub uri: bool,
}

/// An accessor: element count, byte offset, component type, element size in
/// bytes, whether it is sparse, and its buffer view.
#[derive(Debug, Clone, Copy, PartialEq, Eq)]
pub struct AccessorShape {
    pub count: usize,
    pub offset: usize,
    pub kind: ComponentKind,
    pub item_size: usize,
    pub sparse: bool,
    pub view: Option<usize>,
}

/// The accessors a primitive's import reads: positions, normals, the first
/// UV set and indices.
#[derive(Debug, Clone, Copy, PartialEq, Eq)]
pub struct PrimitiveShape {
    pub positions: Option<usize>,
    pub normals: Option<usize>,
    pub tex_coords: Option<usize>,
    pub indices: Option<usize>,
}

/// The layout of a parsed and validated glTF document.
#[derive(Debug)]
pub struct GltfLayout {
    pub buffers: Vec<BufferShape>,
    pub views: Vec<ViewShape>,
    pub images: Vec<ImageShape>,
    pub accessors: Vec<AccessorShape>,
    pub primitives: Vec<Vec<PrimitiveShape>>,
}

#[verifier::external_type_specification]
#[verifier::external_body]
pub struct ExGltf(gltf::Gltf);

/// A glTF or GLB file as `gltf::Gltf::from_slice` parsed and validated it,
/// with the bytes it was parsed from.
pub struct GltfParsed {
    bytes: Vec<u8>,
    gltf: gltf::Gltf,
}

impl View for GltfParsed {
    type V = Seq<u8>;

    /// The bytes the file was parsed from.
    closed spec fn view(&self) -> Seq<u8> {
        self.bytes@
    }
}

/// The layout of the document that `gltf::Gltf::from_slice` parses and
/// validates from the bytes of a glTF or GLB file, or the text of its error.
pub uninterp spec fn gltf_layout(bytes: Seq<u8>) -> Result<GltfLayout, Seq<char>>;

/// Little-endian 32-bit word at byte `i`.
pub open spec fn word_at(bytes: Seq<u8>, i: int) -> int {
    bytes[i] + bytes[i + 1] * 0x100 + bytes[i + 2] * 0x1_0000 + bytes[i + 3] * 0x100_0000
}

/// A GLB file whose header declares a total length shorter than the header
/// itself: the crate subtracts the header size from that length.
pub open spec fn glb_length_underflows(bytes: Seq<u8>) -> bool {
    &&& bytes.len() >= 12
    &&& bytes.subrange(0, 4) == seq![0x67u8, 0x6cu8, 0x54u8, 0x46u8]
    &&& word_at(bytes, 8) < 12
}

/// `gltf::Gltf::from_slice`: splits a GLB container (or takes the text of a
/// glTF file), parses the JSON and validates the document. Its error is the
/// error of `gltf::import_slice` on the same bytes, which calls it first.
/// The crate subtracts the header size from a GLB's declared length, so such
/// a length below the header size is left out.
#[verifier::external_body]
pub(crate) fn parse_gltf(bytes: &[u8]) -> (r: Result<GltfParsed, String>)
    requires
        !glb_length_underflows(bytes@),
    ensures
        match r {
            Ok(p) => p@ == bytes@ && gltf_layout(bytes@) is Ok,
            Err(e) => gltf_layout(bytes@) == Err::<GltfLayout, Seq<char>>(e@)
                && crate::gltf_import::gltf_content(bytes@) == Err::<crate::gltf_import::GltfDocument, Seq<char>>(e@),
        },
{
    match gltf::Gltf::from_slice(bytes) {
        Ok(gltf) => Ok(GltfParsed { bytes: bytes.to_vec(), gltf }),
        Err(err) => Err(err.to_string()),
    }
}

/// URI bytes and declared length of each buffer, those of the named layout.
#[verifier::external_body]
fn layout_buffers(p: &GltfParsed) -> (r: Vec<BufferShape>)
    requires
        gltf_layout(p@) is Ok,
    ensures
        r == gltf_layout(p@)->Ok_0.buffers,
{
    p.gltf.buffers().map(|b| BufferShape {
        uri: match b.source() {
            gltf::buffer::Source::Uri(uri) => Some(uri.as_bytes().to_vec()),
            gltf::buffer::Source::Bin => None,
        },
        length: b.length(),
    }).collect()
}

/// Buffer, offset, length and stride of each buffer view, those of the
/// named layout.
#[verifier::external_body]
fn layout_views(p: &GltfParsed) -> (r: Vec<ViewShape>)
    requires
        gltf_layout(p@) is Ok,
    ensures
        r == gltf_layout(p@)->Ok_0.views,
{
    p.gltf.views().map(|v| ViewShape { buffer: v.buffer().index(), offset: v.offset(), length: v.length(), stride: v.stride() }).collect()
}

/// Buffer view, MIME type and URI presence of each image, as the document's
/// JSON holds them, those of the named layout.
#[verifier::external_body]
fn layout_images(p: &GltfParsed) -> (r: Vec<ImageShape>)
    requires
        gltf_layout(p@) is Ok,
    ensures
        r == gltf_layout(p@)->Ok_0.images,
{
    p.gltf.as_json().images.iter().map(|i| ImageShape {
        view: i.buffer_view.map(|v| v.value()),
        mime_type: i.mime_type.is_some(),
        uri: i.uri.is_some(),
    }).collect()
}

/// Count, offset, component type (`gltf::accessor::DataType` variant by
/// variant), element size, sparseness and view of each accessor, those of
/// the named layout.
#[verifier::external_body]
fn layout_accessors(p: &GltfParsed) -> (r: Vec<AccessorShape>)
    requires
        gltf_layout(p@) is Ok,
    ensures
        r == gltf_layout(p@)->Ok_0.accessors,
{
    p.gltf.accessors().map(|a| AccessorShape {
        count: a.count(),
        offset: a.offset(),
        kind: match a.data_type() {
            DataType::I8 => ComponentKind::I8,
            DataType::U8 => ComponentKind::U8,
            DataType::I16 => ComponentKind::I16,
            DataType::U16 => ComponentKind::U16,
            DataType::U32 => ComponentKind::U32,
            DataType::F32 => ComponentKind::F32,
        },
        item_size: a.size(),
        sparse: a.sparse().is_some(),
        view: a.view().map(|v| v.index()),
    }).collect()
}

/// The accessors of positions, normals, first UV set and indices of each
/// primitive of each mesh, those of the named layout.
#[verifier::external_body]
fn layout_primitives(p: &GltfParsed) -> (r: Vec<Vec<PrimitiveShape>>)
    requires
        gltf_layout(p@) is Ok,
    ensures
        r == gltf_layout(p@)->Ok_0.primitives,
{
    p.gltf.meshes().map(|m| m.primitives().map(|q| PrimitiveShape {
        positions: q.get(&Semantic::Positions).map(|a| a.index()),
        normals: q.get(&Semantic::Normals).map(|a| a.index()),
        tex_coords: q.get(&Semantic::TexCoords(0)).map(|a| a.index()),
        indices: q.indices().map(|a| a.index()),
    }).collect()).collect()
}

/// Value of an ASCII hexadecimal digit of either case.
pub open spec fn hex_value(b: u8) -> Option<u8> {
    if 0x30 <= b <= 0x39 {
        Some((b - 0x30) as u8)
    } else if 0x41 <= b <= 0x46 {
        Some((b - 0x41 + 10) as u8)
    } else if 0x61 <= b <= 0x66 {
        Some((b - 0x61 + 10) as u8)
    } else {
        None
    }
}

/// Percent-decoding as `urlencoding::decode_binary` does it: `%` and two
/// hexadecimal digits become that byte, anything else stays as it is.
pub open spec fn percent_decode(s: Seq<u8>) -> Seq<u8>
    decreases s.len(),
{
    if s.len() == 0 {
        Seq::empty()
    } else if s[0] == 0x25 && s.len() >= 3 && hex_value(s[1]) is Some && hex_value(s[2]) is Some {
        seq![(hex_value(s[1])->0 * 16 + hex_value(s[2])->0) as u8] + percent_decode(s.subrange(3, s.len() as int))
    } else {
        seq![s[0]] + percent_decode(s.subrange(1, s.len() as int))
    }
}

/// The crate can take a buffer URI: one with a scheme (a `:`), or a relative
/// one whose percent-decoding is UTF-8 (else it unwraps a decoding error).
pub open spec fn uri_loadable(uri: Seq<u8>) -> bool {
    uri.contains(0x3au8) || valid_utf8(percent_decode(uri))
}

/// Every buffer URI can be taken.
pub open spec fn buffers_loadable(l: GltfLayout) -> bool {
    forall|i: int| 0 <= i < l.buffers@.len() ==> match (#[trigger] l.buffers@[i]).uri {
        Some(u) => uri_loadable(u@),
        None => true,
    }
}

/// The crate can take an image's source: a buffer view with a MIME type,
/// lying within the declared length of its buffer, or else a URI.
pub open spec fn image_loadable(l: GltfLayout, im: ImageShape) -> bool {
    match im.view {
        Some(v) => {
            &&& im.mime_type
            &&& v < l.views@.len()
            &&& l.views@[v as int].buffer < l.buffers@.len()
            &&& l.views@[v as int].offset + l.views@[v as int].length <= l.buffers@[l.views@[v as int].buffer as int].length
        },
        None => im.uri,
    }
}

/// Every image source can be taken.
pub open spec fn images_loadable(l: GltfLayout) -> bool {
    forall|i: int| 0 <= i < l.images@.len() ==> image_loadable(l, #[trigger] l.images@[i])
}

/// Size in bytes of a component.
pub open spec fn component_size(k: ComponentKind) -> nat {
    match k {
        ComponentKind::I8 | ComponentKind::U8 => 1,
        ComponentKind::I16 | ComponentKind::U16 => 2,
        ComponentKind::U32 | ComponentKind::F32 => 4,
    }
}

/// The crate's accessor reader can read accessor `a` as elements of `item`
/// bytes: it is not sparse, its elements have that size, and when it has a
/// buffer view it holds an element, the view's stride is at least the
/// element size, and the byte ranges it computes fit in `usize`.
pub open spec fn accessor_readable(l: GltfLayout, a: usize, item: nat) -> bool {
    &&& a < l.accessors@.len()
    &&& !l.accessors@[a as int].sparse
    &&& l.accessors@[a as int].item_size == item
    &&& match l.accessors@[a as int].view {
        None => true,
        Some(v) => {
            let x = l.accessors@[a as int];
            let stride = match l.views@[v as int].stride {
                Some(s) => s as int,
                None => item as int,
            };
            &&& v < l.views@.len()
            &&& x.count >= 1
            &&& stride >= item
            &&& x.offset + stride * (x.count - 1) + item <= usize::MAX
            &&& l.views@[v as int].offset + l.views@[v as int].length <= usize::MAX
        },
    }
}

/// The accessors of a primitive can be read: positions and normals as three
/// floats, the first UV set as pairs of unsigned bytes, unsigned shorts or
/// floats, and indices as unsigned bytes, shorts or words.
pub open spec fn primitive_readable(l: GltfLayout, p: PrimitiveShape) -> bool {
    &&& match p.positions {
        Some(a) => accessor_readable(l, a, 12),
        None => true,
    }
    &&& match p.normals {
        Some(a) => accessor_readable(l, a, 12),
        None => true,
    }
    &&& match p.tex_coords {
        Some(a) => a < l.accessors@.len() && match l.accessors@[a as int].kind {
            ComponentKind::U8 | ComponentKind::U16 | ComponentKind::F32 => accessor_readable(
                l,
                a,
                2 * component_size(l.accessors@[a as int].kind),
            ),
            _ => false,
        },
        None => true,
    }
    &&& match p.indices {
        Some(a) => a < l.accessors@.len() && match l.accessors@[a as int].kind {
            ComponentKind::U8 | ComponentKind::U16 | ComponentKind::U32 => accessor_readable(
                l,
                a,
                component_size(l.accessors@[a as int].kind),
            ),
            _ => false,
        },
        None => true,
    }
}

/// Every primitive of every mesh can be read.
pub open spec fn primitives_readable(l: GltfLayout) -> bool {
    forall|m: int, q: int|
        0 <= m < l.primitives@.len() && 0 <= q < l.primitives@[m]@.len() ==> primitive_readable(
            l,
            #[trigger] l.primitives@[m]@[q],
        )
}

/// Whether the bytes are a GLB file whose declared length underflows.
pub fn glb_length_underflows_exec(bytes: &[u8]) -> (r: bool)
    ensures
        r == glb_length_underflows(bytes@),
{
    if bytes.len() < 12 {
        return false;
    }
    let magic = bytes[0] == 0x67 && bytes[1] == 0x6c && bytes[2] == 0x54 && bytes[3] == 0x46;
    proof {
        assert(magic == (bytes@.subrange(0, 4) =~= seq![0x67u8, 0x6cu8, 0x54u8, 0x46u8]));
    }
    if !magic {
        return false;
    }
    let word: u64 = bytes[8] as u64 + bytes[9] as u64 * 0x100 + bytes[10] as u64 * 0x1_0000 + bytes[11] as u64
        * 0x100_0000;
    word < 12
}

fn hex_value_exec(b: u8) -> (r: Option<u8>)
    ensures
        r == hex_value(b),
{
    if 0x30 <= b && b <= 0x39 {
        Some(b - 0x30)
    } else if 0x41 <= b && b <= 0x46 {
        Some(b - 0x41 + 10)
    } else if 0x61 <= b && b <= 0x66 {
        Some(b - 0x61 + 10)
    } else {
        None
    }
}

fn percent_decode_exec(s: &Vec<u8>) -> (r: Vec<u8>)
    ensures
        r@ == percent_decode(s@),
{
    let mut out: Vec<u8> = Vec::new();
    let n = s.len();
    let mut i: usize = 0;
    proof {
        assert(s@.subrange(0, n as int) =~= s@);
        assert(out@ + percent_decode(s@) =~= percent_decode(s@));
    }
    while i < n
        invariant
            n == s@.len(),
            i <= n,
            percent_decode(s@) == out@ + percent_decode(s@.subrange(i as int, n as int)),
        decreases n - i,
    {
        let ghost t = s@.subrange(i as int, n as int);
        if s[i] == 0x25 && n - i >= 3 {
            match (hex_value_exec(s[i + 1]), hex_value_exec(s[i + 2])) {
                (Some(hi), Some(lo)) => {
                    let b: u8 = hi * 16 + lo;
                    proof {
                        assert(t.subrange(3, t.len() as int) =~= s@.subrange(i + 3, n as int));
                        assert(percent_decode(t) == seq![b] + percent_decode(s@.subrange(i + 3, n as int)));
                        assert(out@.push(b) + percent_decode(s@.subrange(i + 3, n as int)) =~= out@ + (seq![b]
                            + percent_decode(s@.subrange(i + 3, n as int))));
                    }
                    out.push(b);
                    i = i + 3;
                    continue;
                },
                _ => {},
            }
        }
        proof {
            assert(t.subrange(1, t.len() as int) =~= s@.subrange(i + 1, n as int));
            assert(percent_decode(t) == seq![s@[i as int]] + percent_decode(s@.subrange(i + 1, n as int)));
            assert(out@.push(s@[i as int]) + percent_decode(s@.subrange(i + 1, n as int)) =~= out@ + (seq![
                s@[i as int],
            ] + percent_decode(s@.subrange(i + 1, n as int))));
        }
        out.push(s[i]);
        i = i + 1;
    }
    proof {
        assert(s@.subrange(n as int, n as int) =~= Seq::<u8>::empty());
        assert(out@ + Seq::<u8>::empty() =~= out@);
    }
    out
}

fn uri_loadable_exec(uri: &Vec<u8>) -> (r: bool)
    ensures
        r == uri_loadable(uri@),
{
    let mut i: usize = 0;
    while i < uri.len()
        invariant
            i <= uri.len(),
            forall|j: int| 0 <= j < i ==> uri@[j] != 0x3au8,
        decreases uri.len() - i,
    {
        if uri[i] == 0x3a {
            assert(uri@.contains(0x3au8));
            return true;
        }
        i += 1;
    }
    let decoded = percent_decode_exec(uri);
    utf8_text(decoded.as_slice()).is_ok()
}

/// Whether every buffer URI can be taken.
pub fn buffers_loadable_exec(l: &GltfLayout) -> (r: bool)
    ensures
        r == buffers_loadable(*l),
{
    let mut i: usize = 0;
    while i < l.buffers.len()
        invariant
            i <= l.buffers@.len(),
            forall|j: int| 0 <= j < i ==> match (#[trigger] l.buffers@[j]).uri {
                Some(u) => uri_loadable(u@),
                None => true,
            },
        decreases l.buffers@.len() - i,
    {
        match &l.buffers[i].uri {
            Some(u) => {
                if !uri_loadable_exec(u) {
                    return false;
                }
            },
            None => {},
        }
        i += 1;
    }
    true
}

/// Whether every image source can be taken.
pub fn images_loadable_exec(l: &GltfLayout) -> (r: bool)
    ensures
        r == images_loadable(*l),
{
    let mut i: usize = 0;
    while i < l.images.len()
        invariant
            i <= l.images@.len(),
            forall|j: int| 0 <= j < i ==> image_loadable(*l, #[trigger] l.images@[j]),
        decreases l.images@.len() - i,
    {
        let im = l.images[i];
        let ok = match im.view {
            Some(v) => {
                if !im.mime_type || v >= l.views.len() {
                    false
                } else {
                    let view = l.views[v];
                    if view.buffer >= l.buffers.len() {
                        false
                    } else {
                        view.offset as u128 + view.length as u128 <= l.buffers[view.buffer].length as u128
                    }
                }
            },
            None => im.uri,
        };
        if !ok {
            return false;
        }
        i += 1;
    }
    true
}

/// Whether accessor `a` can be read as elements of `item` bytes.
fn accessor_readable_exec(l: &GltfLayout, a: usize, item: usize) -> (r: bool)
    ensures
        r == accessor_readable(*l, a, item as nat),
{
    if a >= l.accessors.len() {
        return false;
    }
    let x = l.accessors[a];
    if x.sparse || x.item_size != item {
        return false;
    }
    match x.view {
        None => true,
        Some(v) => {
            if v >= l.views.len() || x.count == 0 {
                return false;
            }
            let view = l.views[v];
            let stride = match view.stride {
                Some(s) => s,
                None => item,
            };
            if stride < item {
                return false;
            }
            let span = match stride.checked_mul(x.count - 1) {
                Some(p) => p,
                None => {
                    proof {
                        assert(stride * (x.count - 1) > usize::MAX);
                    }
                    return false;
                },
            };
            let end = match x.offset.checked_add(span) {
                Some(e) => e,
                None => {
                    return false;
                },
            };
            if end.checked_add(item).is_none() {
                return false;
            }
            view.offset.checked_add(view.length).is_some()
        },
    }
}

fn component_size_exec(k: ComponentKind) -> (r: usize)
    ensures
        r == component_size(k),
{
    match k {
        ComponentKind::I8 | ComponentKind::U8 => 1,
        ComponentKind::I16 | ComponentKind::U16 => 2,
        ComponentKind::U32 | ComponentKind::F32 => 4,
    }
}

fn primitive_readable_exec(l: &GltfLayout, p: PrimitiveShape) -> (r: bool)
    ensures
        r == primitive_readable(*l, p),
{
    let positions = match p.positions {
        Some(a) => accessor_readable_exec(l, a, 12),
        None => true,
    };
    let normals = match p.normals {
        Some(a) => accessor_readable_exec(l, a, 12),
        None => true,
    };
    let tex_coords = match p.tex_coords {
        Some(a) => a < l.accessors.len() && match l.accessors[a].kind {
            ComponentKind::U8 | ComponentKind::U16 | ComponentKind::F32 => accessor_readable_exec(
                l,
                a,
                2 * component_size_exec(l.accessors[a].kind),
            ),
            _ => false,
        },
        None => true,
    };
    let indices = match p.indices {
        Some(a) => a < l.accessors.len() && match l.accessors[a].kind {
            ComponentKind::U8 | ComponentKind::U16 | ComponentKind::U32 => accessor_readable_exec(
                l,
                a,
                component_size_exec(l.accessors[a].kind),
            ),
            _ => false,
        },
        None => true,
    };
    positions && normals && tex_coords && indices
}

/// Whether every primitive of every mesh can be read.
pub fn primitives_readable_exec(l: &GltfLayout) -> (r: bool)
    ensures
        r == primitives_readable(*l),
{
    let mut m: usize = 0;
    while m < l.primitives.len()
        invariant
            m <= l.primitives@.len(),
            forall|i: int, q: int|
                0 <= i < m && 0 <= q < l.primitives@[i]@.len() ==> primitive_readable(
                    *l,
                    #[trigger] l.primitives@[i]@[q],
                ),
        decreases l.primitives@.len() - m,
    {
        let mut q: usize = 0;
        while q < l.primitives[m].len()
            invariant
                m < l.primitives@.len(),
                q <= l.primitives@[m as int]@.len(),
                forall|i: int, k: int|
                    0 <= i < m && 0 <= k < l.primitives@[i]@.len() ==> primitive_readable(
                        *l,
                        #[trigger] l.primitives@[i]@[k],
                    ),
                forall|k: int| 0 <= k < q ==> primitive_readable(*l, #[trigger] l.primitives@[m as int]@[k]),
            decreases l.primitives@[m as int]@.len() - q,
        {
            if !primitive_readable_exec(l, l.primitives[m][q]) {
                return false;
            }
            q += 1;
        }
        m += 1;
    }
    true
}

/// The layout of a glTF or GLB file, or the `gltf` crate's error on it
/// (which is also the import's error on it).
pub fn read_layout(bytes: &[u8]) -> (r: Result<GltfLayout, String>)
    requires
        !glb_length_underflows(bytes@),
    ensures
        match r {
            Ok(l) => gltf_layout(bytes@) == Ok::<GltfLayout, Seq<char>>(l),
            Err(e) => gltf_layout(bytes@) == Err::<GltfLayout, Seq<char>>(e@)
                && crate::gltf_import::gltf_content(bytes@) == Err::<crate::gltf_import::GltfDocument, Seq<char>>(e@),
        },
{
    match parse_gltf(bytes) {
        Err(e) => Err(e),
        Ok(p) => Ok(
            GltfLayout {
                buffers: layout_buffers(&p),
                views: layout_views(&p),
                images: layout_images(&p),
                accessors: layout_accessors(&p),
                primitives: layout_primitives(&p),
            },
        ),
    }
}

} // verus!
