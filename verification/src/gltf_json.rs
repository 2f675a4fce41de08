//! The glTF JSON document of an export, as compact JSON text with the keys
//! of each object in ascending order. Numbers that stand for floats are
//! handed in as their JSON text.
use vstd::prelude::*;

use crate::glb_builder::{
    Accessor, AccessorKind, BufferView, ComponentType, GlbBuilder, GlbMaterial, GlbMesh, GlbNode, GlbState,
    ImageRecord, MaterialKind, MaterialRecord, MeshRecord, NodeRecord, Primitive,
};
use crate::text::{chars_of, decimal, decimal_string, views_of};

verus! {

/// Lower-case hexadecimal digit of `d < 16`.
pub open spec fn hex_digit(d: nat) -> char {
    if d < 10 {
        seq!['0', '1', '2', '3', '4', '5', '6', '7', '8', '9'][d as int]
    } else {
        seq!['a', 'b', 'c', 'd', 'e', 'f'][d - 10]
    }
}

/// A character inside a JSON string: quote, backslash and control
/// characters escaped, short forms where JSON has them.
pub open spec fn escape_char(c: char) -> Seq<char> {
    if c == '"' {
        seq!['\\', '"']
    } else if c == '\\' {
        seq!['\\', '\\']
    } else if c == '\n' {
        seq!['\\', 'n']
    } else if c == '\r' {
        seq!['\\', 'r']
    } else if c == '\t' {
        seq!['\\', 't']
    } else if c == '\u{8}' {
        seq!['\\', 'b']
    } else if c == '\u{c}' {
        seq!['\\', 'f']
    } else if (c as u32) < 0x20 {
        seq!['\\', 'u', '0', '0', hex_digit((c as u32 / 16) as nat), hex_digit((c as u32 % 16) as nat)]
    } else {
        seq![c]
    }
}

/// The characters of `s` escaped.
pub open spec fn json_escape(s: Seq<char>) -> Seq<char>
    decreases s.len(),
{
    if s.len() == 0 {
        Seq::empty()
    } else {
        json_escape(s.drop_last()) + escape_char(s.last())
    }
}

/// A JSON string.
pub open spec fn json_str(s: Seq<char>) -> Seq<char> {
    seq!['"'] + json_escape(s) + seq!['"']
}

/// Items separated by commas.
pub open spec fn json_join(items: Seq<Seq<char>>) -> Seq<char>
    decreases items.len(),
{
    if items.len() == 0 {
        Seq::empty()
    } else if items.len() == 1 {
        items[0]
    } else {
        json_join(items.drop_last()) + seq![','] + items.last()
    }
}

/// A JSON array of the given item texts.
pub open spec fn json_array(items: Seq<Seq<char>>) -> Seq<char> {
    seq!['['] + json_join(items) + seq![']']
}

/// A JSON object of the given keys and value texts, in the order given.
pub open spec fn json_object(fields: Seq<(Seq<char>, Seq<char>)>) -> Seq<char> {
    seq!['{'] + json_join(fields.map_values(|f: (Seq<char>, Seq<char>)| json_str(f.0) + seq![':'] + f.1))
        + seq!['}']
}

pub open spec fn field_views(v: Seq<(Vec<char>, Vec<char>)>) -> Seq<(Seq<char>, Seq<char>)> {
    v.map_values(|f: (Vec<char>, Vec<char>)| (f.0@, f.1@))
}

fn append(out: &mut Vec<char>, s: &Vec<char>)
    ensures
        final(out)@ == old(out)@ + s@,
{
    let mut i: usize = 0;
    while i < s.len()
        invariant
            i <= s.len(),
            out@ == old(out)@ + s@.subrange(0, i as int),
        decreases s.len() - i,
    {
        out.push(s[i]);
        i += 1;
        assert(s@.subrange(0, i as int) =~= s@.subrange(0, i - 1).push(s@[i - 1]));
    }
    assert(s@.subrange(0, i as int) =~= s@);
}

fn text(s: &str) -> (r: Vec<char>)
    ensures
        r@ == s@,
{
    chars_of(s)
}

fn uint_text(n: usize) -> (r: Vec<char>)
    ensures
        r@ == decimal(n as nat),
{
    let s = decimal_string(n as u64);
    chars_of(s.as_str())
}

fn hex_digit_exec(d: u32) -> (r: char)
    requires
        d < 16,
    ensures
        r == hex_digit(d as nat),
{
    let digits = ['0', '1', '2', '3', '4', '5', '6', '7', '8', '9', 'a', 'b', 'c', 'd', 'e', 'f'];
    proof {
        assert(hex_digit(d as nat) == digits@[d as int]);
    }
    digits[d as usize]
}

fn escape_char_exec(c: char) -> (r: Vec<char>)
    ensures
        r@ == escape_char(c),
{
    let r = if c == '"' {
        vec!['\\', '"']
    } else if c == '\\' {
        vec!['\\', '\\']
    } else if c == '\n' {
        vec!['\\', 'n']
    } else if c == '\r' {
        vec!['\\', 'r']
    } else if c == '\t' {
        vec!['\\', 't']
    } else if c == '\u{8}' {
        vec!['\\', 'b']
    } else if c == '\u{c}' {
        vec!['\\', 'f']
    } else if (c as u32) < 0x20 {
        let code = c as u32;
        vec!['\\', 'u', '0', '0', hex_digit_exec(code / 16), hex_digit_exec(code % 16)]
    } else {
        vec![c]
    };
    assert(r@ =~= escape_char(c));
    r
}

fn json_str_exec(s: &Vec<char>) -> (r: Vec<char>)
    ensures
        r@ == json_str(s@),
{
    let mut out: Vec<char> = vec!['"'];
    let mut i: usize = 0;
    while i < s.len()
        invariant
            i <= s.len(),
            out@ == seq!['"'] + json_escape(s@.subrange(0, i as int)),
        decreases s.len() - i,
    {
        let e = escape_char_exec(s[i]);
        append(&mut out, &e);
        proof {
            let t = s@.subrange(0, i + 1);
            assert(t.drop_last() =~= s@.subrange(0, i as int));
            assert(t.last() == s@[i as int]);
        }
        i += 1;
    }
    out.push('"');
    assert(s@.subrange(0, i as int) =~= s@);
    out
}

fn json_join_exec(items: &Vec<Vec<char>>) -> (r: Vec<char>)
    ensures
        r@ == json_join(views_of(items@)),
{
    let mut out: Vec<char> = Vec::new();
    let mut i: usize = 0;
    while i < items.len()
        invariant
            i <= items.len(),
            out@ == json_join(views_of(items@).subrange(0, i as int)),
        decreases items.len() - i,
    {
        proof {
            let t = views_of(items@).subrange(0, i + 1);
            assert(t.drop_last() =~= views_of(items@).subrange(0, i as int));
        }
        if i > 0 {
            out.push(',');
        }
        append(&mut out, &items[i]);
        i += 1;
    }
    assert(views_of(items@).subrange(0, i as int) =~= views_of(items@));
    out
}

fn json_array_exec(items: &Vec<Vec<char>>) -> (r: Vec<char>)
    ensures
        r@ == json_array(views_of(items@)),
{
    let mut out: Vec<char> = vec!['['];
    let j = json_join_exec(items);
    append(&mut out, &j);
    out.push(']');
    assert(out@ =~= json_array(views_of(items@)));
    out
}

fn json_object_exec(fields: &Vec<(Vec<char>, Vec<char>)>) -> (r: Vec<char>)
    ensures
        r@ == json_object(field_views(fields@)),
{
    let mut entries: Vec<Vec<char>> = Vec::new();
    let mut i: usize = 0;
    while i < fields.len()
        invariant
            i <= fields.len(),
            entries@.len() == i,
            forall|q: int|
                0 <= q < i ==> (#[trigger] entries@[q])@ == json_str(fields@[q].0@) + seq![':'] + fields@[q].1@,
        decreases fields.len() - i,
    {
        let mut e = json_str_exec(&fields[i].0);
        e.push(':');
        append(&mut e, &fields[i].1);
        entries.push(e);
        i += 1;
    }
    let j = json_join_exec(&entries);
    let mut out: Vec<char> = vec!['{'];
    append(&mut out, &j);
    out.push('}');
    proof {
        assert(views_of(entries@) =~= field_views(fields@).map_values(
            |f: (Seq<char>, Seq<char>)| json_str(f.0) + seq![':'] + f.1,
        ));
    }
    assert(out@ =~= json_object(field_views(fields@)));
    out
}

/// A field present only when `present` holds.
pub open spec fn optional_field(present: bool, key: Seq<char>, value: Seq<char>) -> Seq<(Seq<char>, Seq<char>)> {
    if present {
        seq![(key, value)]
    } else {
        Seq::empty()
    }
}

/// Decimal texts of indices.
pub open spec fn index_texts(v: Seq<usize>) -> Seq<Seq<char>> {
    v.map_values(|i: usize| decimal(i as nat))
}

/// glTF component type code.
pub open spec fn component_code(c: ComponentType) -> nat {
    match c {
        ComponentType::Float => 5126,
        ComponentType::UnsignedByte => 5121,
        ComponentType::UnsignedInt => 5125,
    }
}

/// glTF accessor type name.
pub open spec fn kind_name(k: AccessorKind) -> Seq<char> {
    match k {
        AccessorKind::Scalar => "SCALAR"@,
        AccessorKind::Vec2 => "VEC2"@,
        AccessorKind::Vec3 => "VEC3"@,
    }
}

/// An accessor, with the texts of its minimum and maximum components.
pub open spec fn accessor_json(a: Accessor, min: Seq<Seq<char>>, max: Seq<Seq<char>>) -> Seq<char> {
    json_object(
        seq![
            ("bufferView"@, decimal(a.buffer_view as nat)),
            ("componentType"@, decimal(component_code(a.component_type))),
            ("count"@, decimal(a.count as nat)),
        ] + optional_field(a.max is Some, "max"@, json_array(max)) + optional_field(
            a.min is Some,
            "min"@,
            json_array(min),
        ) + optional_field(a.normalized, "normalized"@, "true"@) + seq![("type"@, json_str(kind_name(a.kind)))],
    )
}

/// A buffer view of the single buffer.
pub open spec fn view_json(v: BufferView) -> Seq<char> {
    json_object(
        seq![
            ("buffer"@, "0"@),
            ("byteLength"@, decimal(v.length as nat)),
            ("byteOffset"@, decimal(v.offset as nat)),
        ],
    )
}

/// The attributes of a primitive.
pub open spec fn attributes_json(p: Primitive) -> Seq<char> {
    json_object(
        optional_field(p.color is Some, "COLOR_0"@, decimal(p.color->0 as nat)) + optional_field(
            p.normal is Some,
            "NORMAL"@,
            decimal(p.normal->0 as nat),
        ) + seq![("POSITION"@, decimal(p.position as nat))] + optional_field(
            p.texcoord is Some,
            "TEXCOORD_0"@,
            decimal(p.texcoord->0 as nat),
        ),
    )
}

/// A mesh with its single primitive; points are drawn in mode 0.
pub open spec fn mesh_json(m: MeshRecord) -> Seq<char> {
    let p = m.primitive;
    let primitive = json_object(
        seq![("attributes"@, attributes_json(p))] + optional_field(
            p.indices is Some,
            "indices"@,
            decimal(p.indices->0 as nat),
        ) + seq![("material"@, decimal(p.material as nat))] + optional_field(p.points, "mode"@, "0"@),
    );
    json_object(seq![("name"@, json_str(m.name)), ("primitives"@, json_array(seq![primitive]))])
}

/// A material, with the texts of its base color factor: not metallic,
/// roughness 0.9 for surfaces and 1.0 for point clouds.
pub open spec fn material_json(m: MaterialRecord, color: Seq<Seq<char>>) -> Seq<char> {
    let pbr = json_object(
        seq![("baseColorFactor"@, json_array(color))] + optional_field(
            m.texture is Some,
            "baseColorTexture"@,
            json_object(seq![("index"@, decimal(m.texture->0 as nat))]),
        ) + seq![
            ("metallicFactor"@, "0.0"@),
            ("roughnessFactor"@, match m.kind {
                MaterialKind::Surface => "0.9"@,
                MaterialKind::VertexColor => "1.0"@,
            }),
        ],
    );
    json_object(seq![("name"@, json_str(m.name)), ("pbrMetallicRoughness"@, pbr)])
}

/// A node, with the texts of its translation, rotation and scale components.
pub open spec fn node_json(n: NodeRecord, t: Seq<Seq<char>>) -> Seq<char> {
    json_object(
        optional_field(n.children.len() > 0, "children"@, json_array(index_texts(n.children)))
            + optional_field(n.mesh is Some, "mesh"@, decimal(n.mesh->0 as nat)) + seq![
            ("name"@, json_str(n.name)),
            ("rotation"@, json_array(t.subrange(3, 7))),
            ("scale"@, json_array(t.subrange(7, 10))),
            ("translation"@, json_array(t.subrange(0, 3))),
        ],
    )
}

/// An embedded image.
pub open spec fn image_json(i: ImageRecord) -> Seq<char> {
    json_object(seq![("bufferView"@, decimal(i.buffer_view as nat)), ("mimeType"@, json_str(i.mime_type))])
}

/// A texture of the single sampler.
pub open spec fn texture_json(source: usize) -> Seq<char> {
    json_object(seq![("sampler"@, "0"@), ("source"@, decimal(source as nat))])
}

/// The linear, repeating sampler of embedded textures.
pub open spec fn samplers_json() -> Seq<char> {
    "[{\"magFilter\":9729,\"minFilter\":9729,\"wrapS\":10497,\"wrapT\":10497}]"@
}

/// The asset description.
pub open spec fn asset_json() -> Seq<char> {
    "{\"generator\":\"Create3D\",\"version\":\"2.0\"}"@
}

/// The glTF document of an export state with the given root nodes, given
/// the JSON texts of the float components: accessor minimums and maximums,
/// material base colors and node transforms, record by record. Images,
/// samplers and textures appear only when there are images.
pub open spec fn glb_json(
    st: GlbState,
    roots: Seq<usize>,
    mins: Seq<Seq<Seq<char>>>,
    maxs: Seq<Seq<Seq<char>>>,
    colors: Seq<Seq<Seq<char>>>,
    transforms: Seq<Seq<Seq<char>>>,
) -> Seq<char> {
    let with_images = st.images.len() > 0;
    json_object(
        seq![
            ("accessors"@, json_array(Seq::new(st.accessors.len(), |k: int| accessor_json(st.accessors[k], mins[k], maxs[k])))),
            ("asset"@, asset_json()),
            ("bufferViews"@, json_array(st.views.map_values(|v: BufferView| view_json(v)))),
            ("buffers"@, json_array(seq![json_object(seq![("byteLength"@, decimal(st.bin.len()))])])),
        ] + optional_field(with_images, "images"@, json_array(st.images.map_values(|i: ImageRecord| image_json(i))))
            + seq![
            ("materials"@, json_array(Seq::new(st.materials.len(), |k: int| material_json(st.materials[k], colors[k])))),
            ("meshes"@, json_array(st.meshes.map_values(|m: MeshRecord| mesh_json(m)))),
            ("nodes"@, json_array(Seq::new(st.nodes.len(), |k: int| node_json(st.nodes[k], transforms[k])))),
        ] + optional_field(with_images, "samplers"@, samplers_json()) + seq![
            ("scene"@, "0"@),
            ("scenes"@, json_array(seq![json_object(seq![("nodes"@, json_array(index_texts(roots)))])])),
        ] + optional_field(with_images, "textures"@, json_array(st.textures.map_values(|s: usize| texture_json(s)))),
    )
}

pub open spec fn string_texts(v: Seq<String>) -> Seq<Seq<char>> {
    v.map_values(|x: String| x@)
}

pub open spec fn text_table(v: Seq<Vec<String>>) -> Seq<Seq<Seq<char>>> {
    v.map_values(|x: Vec<String>| string_texts(x@))
}

fn texts_in(v: &Vec<String>, from: usize, to: usize) -> (r: Vec<Vec<char>>)
    requires
        from <= to <= v.len(),
    ensures
        views_of(r@) == string_texts(v@).subrange(from as int, to as int),
{
    let mut r: Vec<Vec<char>> = Vec::new();
    let mut i = from;
    while i < to
        invariant
            from <= i <= to <= v.len(),
            views_of(r@) == string_texts(v@).subrange(from as int, i as int),
        decreases to - i,
    {
        let c = chars_of(v[i].as_str());
        let ghost before = r@;
        r.push(c);
        proof {
            assert(views_of(r@) =~= views_of(before).push(c@));
            assert(string_texts(v@).subrange(from as int, i + 1) =~= string_texts(v@).subrange(
                from as int,
                i as int,
            ).push(v@[i as int]@));
        }
        i += 1;
    }
    r
}

fn index_array(v: &Vec<usize>) -> (r: Vec<char>)
    ensures
        r@ == json_array(index_texts(v@)),
{
    let mut items: Vec<Vec<char>> = Vec::new();
    let mut i: usize = 0;
    while i < v.len()
        invariant
            i <= v.len(),
            views_of(items@) == index_texts(v@).subrange(0, i as int),
        decreases v.len() - i,
    {
        let t = uint_text(v[i]);
        let ghost before = items@;
        items.push(t);
        proof {
            assert(views_of(items@) =~= views_of(before).push(t@));
            assert(index_texts(v@).subrange(0, i + 1) =~= index_texts(v@).subrange(0, i as int).push(
                decimal(v@[i as int] as nat),
            ));
        }
        i += 1;
    }
    assert(index_texts(v@).subrange(0, i as int) =~= index_texts(v@));
    json_array_exec(&items)
}

fn field(key: &str, value: Vec<char>) -> (r: (Vec<char>, Vec<char>))
    ensures
        r.0@ == key@,
        r.1@ == value@,
{
    (text(key), value)
}

fn accessor_text(a: &Accessor, min: &Vec<String>, max: &Vec<String>) -> (r: Vec<char>)
    ensures
        r@ == accessor_json(*a, string_texts(min@), string_texts(max@)),
{
    let mut f: Vec<(Vec<char>, Vec<char>)> = Vec::new();
    f.push(field("bufferView", uint_text(a.buffer_view)));
    let code: usize = match a.component_type {
        ComponentType::Float => 5126,
        ComponentType::UnsignedByte => 5121,
        ComponentType::UnsignedInt => 5125,
    };
    f.push(field("componentType", uint_text(code)));
    f.push(field("count", uint_text(a.count)));
    let ghost base = field_views(f@);
    if a.max.is_some() {
        f.push(field("max", json_array_exec(&texts_in(max, 0, max.len()))));
    }
    let ghost with_max = field_views(f@);
    if a.min.is_some() {
        f.push(field("min", json_array_exec(&texts_in(min, 0, min.len()))));
    }
    let ghost with_min = field_views(f@);
    if a.normalized {
        f.push(field("normalized", text("true")));
    }
    let ghost with_norm = field_views(f@);
    let kind = match a.kind {
        AccessorKind::Scalar => "SCALAR",
        AccessorKind::Vec2 => "VEC2",
        AccessorKind::Vec3 => "VEC3",
    };
    f.push(field("type", json_str_exec(&text(kind))));
    proof {
        assert(string_texts(max@).subrange(0, max@.len() as int) =~= string_texts(max@));
        assert(string_texts(min@).subrange(0, min@.len() as int) =~= string_texts(min@));
        assert(base =~= seq![
            ("bufferView"@, decimal(a.buffer_view as nat)),
            ("componentType"@, decimal(component_code(a.component_type))),
            ("count"@, decimal(a.count as nat)),
        ]);
        assert(with_max =~= base + optional_field(a.max is Some, "max"@, json_array(string_texts(max@))));
        assert(with_min =~= with_max + optional_field(a.min is Some, "min"@, json_array(string_texts(min@))));
        assert(with_norm =~= with_min + optional_field(a.normalized, "normalized"@, "true"@));
        assert(field_views(f@) =~= with_norm + seq![("type"@, json_str(kind_name(a.kind)))]);
    }
    json_object_exec(&f)
}


fn view_text(v: &BufferView) -> (r: Vec<char>)
    ensures
        r@ == view_json(*v),
{
    let mut f: Vec<(Vec<char>, Vec<char>)> = Vec::new();
    f.push(field("buffer", text("0")));
    f.push(field("byteLength", uint_text(v.length)));
    f.push(field("byteOffset", uint_text(v.offset)));
    proof {
        assert(field_views(f@) =~= seq![
            ("buffer"@, "0"@),
            ("byteLength"@, decimal(v.length as nat)),
            ("byteOffset"@, decimal(v.offset as nat)),
        ]);
    }
    json_object_exec(&f)
}

fn attributes_text(p: &Primitive) -> (r: Vec<char>)
    ensures
        r@ == attributes_json(*p),
{
    let mut f: Vec<(Vec<char>, Vec<char>)> = Vec::new();
    if let Some(c) = p.color {
        f.push(field("COLOR_0", uint_text(c)));
    }
    let ghost a = field_views(f@);
    if let Some(n) = p.normal {
        f.push(field("NORMAL", uint_text(n)));
    }
    let ghost b = field_views(f@);
    f.push(field("POSITION", uint_text(p.position)));
    let ghost c = field_views(f@);
    if let Some(t) = p.texcoord {
        f.push(field("TEXCOORD_0", uint_text(t)));
    }
    proof {
        assert(a =~= optional_field(p.color is Some, "COLOR_0"@, decimal(p.color->0 as nat)));
        assert(b =~= a + optional_field(p.normal is Some, "NORMAL"@, decimal(p.normal->0 as nat)));
        assert(c =~= b + seq![("POSITION"@, decimal(p.position as nat))]);
        assert(field_views(f@) =~= c + optional_field(
            p.texcoord is Some,
            "TEXCOORD_0"@,
            decimal(p.texcoord->0 as nat),
        ));
    }
    json_object_exec(&f)
}

fn mesh_text(m: &GlbMesh) -> (r: Vec<char>)
    ensures
        r@ == mesh_json(MeshRecord { name: m.name@, primitive: m.primitive }),
{
    let p = &m.primitive;
    let mut f: Vec<(Vec<char>, Vec<char>)> = Vec::new();
    f.push(field("attributes", attributes_text(p)));
    let ghost a = field_views(f@);
    if let Some(i) = p.indices {
        f.push(field("indices", uint_text(i)));
    }
    let ghost b = field_views(f@);
    f.push(field("material", uint_text(p.material)));
    let ghost c = field_views(f@);
    if p.points {
        f.push(field("mode", text("0")));
    }
    proof {
        assert(a =~= seq![("attributes"@, attributes_json(*p))]);
        assert(b =~= a + optional_field(p.indices is Some, "indices"@, decimal(p.indices->0 as nat)));
        assert(c =~= b + seq![("material"@, decimal(p.material as nat))]);
        assert(field_views(f@) =~= c + optional_field(p.points, "mode"@, "0"@));
    }
    let primitive = json_object_exec(&f);
    let mut items: Vec<Vec<char>> = Vec::new();
    items.push(primitive);
    let mut g: Vec<(Vec<char>, Vec<char>)> = Vec::new();
    g.push(field("name", json_str_exec(&chars_of(m.name.as_str()))));
    g.push(field("primitives", json_array_exec(&items)));
    proof {
        assert(views_of(items@) =~= seq![primitive@]);
        assert(field_views(g@) =~= seq![
            ("name"@, json_str(m.name@)),
            ("primitives"@, json_array(seq![primitive@])),
        ]);
    }
    json_object_exec(&g)
}

fn material_text(m: &GlbMaterial, color: &Vec<String>) -> (r: Vec<char>)
    ensures
        r@ == material_json(
            MaterialRecord { name: m.name@, kind: m.kind, base_color: m.base_color, texture: m.texture },
            string_texts(color@),
        ),
{
    let mut f: Vec<(Vec<char>, Vec<char>)> = Vec::new();
    f.push(field("baseColorFactor", json_array_exec(&texts_in(color, 0, color.len()))));
    let ghost a = field_views(f@);
    if let Some(t) = m.texture {
        let mut i: Vec<(Vec<char>, Vec<char>)> = Vec::new();
        i.push(field("index", uint_text(t)));
        proof {
            assert(field_views(i@) =~= seq![("index"@, decimal(t as nat))]);
        }
        f.push(field("baseColorTexture", json_object_exec(&i)));
    }
    let ghost b = field_views(f@);
    f.push(field("metallicFactor", text("0.0")));
    let roughness = match m.kind {
        MaterialKind::Surface => "0.9",
        MaterialKind::VertexColor => "1.0",
    };
    f.push(field("roughnessFactor", text(roughness)));
    proof {
        assert(string_texts(color@).subrange(0, color@.len() as int) =~= string_texts(color@));
        assert(a =~= seq![("baseColorFactor"@, json_array(string_texts(color@)))]);
        assert(b =~= a + optional_field(
            m.texture is Some,
            "baseColorTexture"@,
            json_object(seq![("index"@, decimal(m.texture->0 as nat))]),
        ));
        assert(field_views(f@) =~= b + seq![
            ("metallicFactor"@, "0.0"@),
            ("roughnessFactor"@, match m.kind {
                MaterialKind::Surface => "0.9"@,
                MaterialKind::VertexColor => "1.0"@,
            }),
        ]);
    }
    let pbr = json_object_exec(&f);
    let mut g: Vec<(Vec<char>, Vec<char>)> = Vec::new();
    g.push(field("name", json_str_exec(&chars_of(m.name.as_str()))));
    g.push(field("pbrMetallicRoughness", pbr));
    proof {
        assert(field_views(g@) =~= seq![("name"@, json_str(m.name@)), ("pbrMetallicRoughness"@, pbr@)]);
    }
    json_object_exec(&g)
}

fn node_text(n: &GlbNode, t: &Vec<String>) -> (r: Vec<char>)
    requires
        t.len() == 10,
    ensures
        r@ == node_json(
            NodeRecord { name: n.name@, transform: n.transform, mesh: n.mesh, children: n.children@ },
            string_texts(t@),
        ),
{
    let mut f: Vec<(Vec<char>, Vec<char>)> = Vec::new();
    if n.children.len() > 0 {
        f.push(field("children", index_array(&n.children)));
    }
    let ghost a = field_views(f@);
    if let Some(m) = n.mesh {
        f.push(field("mesh", uint_text(m)));
    }
    let ghost b = field_views(f@);
    f.push(field("name", json_str_exec(&chars_of(n.name.as_str()))));
    f.push(field("rotation", json_array_exec(&texts_in(t, 3, 7))));
    f.push(field("scale", json_array_exec(&texts_in(t, 7, 10))));
    f.push(field("translation", json_array_exec(&texts_in(t, 0, 3))));
    proof {
        assert(a =~= optional_field(n.children@.len() > 0, "children"@, json_array(index_texts(n.children@))));
        assert(b =~= a + optional_field(n.mesh is Some, "mesh"@, decimal(n.mesh->0 as nat)));
        assert(field_views(f@) =~= b + seq![
            ("name"@, json_str(n.name@)),
            ("rotation"@, json_array(string_texts(t@).subrange(3, 7))),
            ("scale"@, json_array(string_texts(t@).subrange(7, 10))),
            ("translation"@, json_array(string_texts(t@).subrange(0, 3))),
        ]);
    }
    json_object_exec(&f)
}

fn image_text(i: &crate::glb_builder::GlbImage) -> (r: Vec<char>)
    ensures
        r@ == image_json(ImageRecord { buffer_view: i.buffer_view, mime_type: i.mime_type@ }),
{
    let mut f: Vec<(Vec<char>, Vec<char>)> = Vec::new();
    f.push(field("bufferView", uint_text(i.buffer_view)));
    f.push(field("mimeType", json_str_exec(&chars_of(i.mime_type.as_str()))));
    proof {
        assert(field_views(f@) =~= seq![
            ("bufferView"@, decimal(i.buffer_view as nat)),
            ("mimeType"@, json_str(i.mime_type@)),
        ]);
    }
    json_object_exec(&f)
}

fn texture_text(source: usize) -> (r: Vec<char>)
    ensures
        r@ == texture_json(source),
{
    let mut f: Vec<(Vec<char>, Vec<char>)> = Vec::new();
    f.push(field("sampler", text("0")));
    f.push(field("source", uint_text(source)));
    proof {
        assert(field_views(f@) =~= seq![("sampler"@, "0"@), ("source"@, decimal(source as nat))]);
    }
    json_object_exec(&f)
}


fn accessors_text(builder: &GlbBuilder, mins: &Vec<Vec<String>>, maxs: &Vec<Vec<String>>) -> (r: Vec<char>)
    requires
        mins@.len() == builder@.accessors.len(),
        maxs@.len() == builder@.accessors.len(),
    ensures
        r@ == json_array(
            Seq::new(
                builder@.accessors.len(),
                |q: int| accessor_json(builder@.accessors[q], text_table(mins@)[q], text_table(maxs@)[q]),
            ),
        ),
{
    let ghost st = builder@;
    let accessors = builder.accessors();
    let mut items: Vec<Vec<char>> = Vec::new();
    let mut k: usize = 0;
    while k < accessors.len()
        invariant
            accessors@ == st.accessors,
            mins@.len() == st.accessors.len(),
            maxs@.len() == st.accessors.len(),
            k <= accessors.len(),
            items@.len() == k,
            forall|q: int|
                0 <= q < k ==> (#[trigger] items@[q])@ == accessor_json(
                    st.accessors[q],
                    text_table(mins@)[q],
                    text_table(maxs@)[q],
                ),
        decreases accessors.len() - k,
    {
        items.push(accessor_text(&accessors[k], &mins[k], &maxs[k]));
        k += 1;
    }
    assert(views_of(items@) =~= Seq::new(
        st.accessors.len(),
        |q: int| accessor_json(st.accessors[q], text_table(mins@)[q], text_table(maxs@)[q]),
    ));
    json_array_exec(&items)
}

fn views_text(builder: &GlbBuilder) -> (r: Vec<char>)
    ensures
        r@ == json_array(builder@.views.map_values(|v: BufferView| view_json(v))),
{
    let ghost st = builder@;
    let views = builder.buffer_views();
    let mut items: Vec<Vec<char>> = Vec::new();
    let mut k: usize = 0;
    while k < views.len()
        invariant
            views@ == st.views,
            k <= views.len(),
            items@.len() == k,
            forall|q: int| 0 <= q < k ==> (#[trigger] items@[q])@ == view_json(st.views[q]),
        decreases views.len() - k,
    {
        items.push(view_text(&views[k]));
        k += 1;
    }
    assert(views_of(items@) =~= st.views.map_values(|v: BufferView| view_json(v)));
    json_array_exec(&items)
}

fn buffers_text(builder: &GlbBuilder) -> (r: Vec<char>)
    ensures
        r@ == json_array(seq![json_object(seq![("byteLength"@, decimal(builder@.bin.len()))])]),
{
    let mut b: Vec<(Vec<char>, Vec<char>)> = Vec::new();
    b.push(field("byteLength", uint_text(builder.bin().len())));
    let mut items: Vec<Vec<char>> = Vec::new();
    items.push(json_object_exec(&b));
    proof {
        assert(field_views(b@) =~= seq![("byteLength"@, decimal(builder@.bin.len()))]);
        assert(views_of(items@) =~= seq![json_object(seq![("byteLength"@, decimal(builder@.bin.len()))])]);
    }
    json_array_exec(&items)
}

fn images_text(builder: &GlbBuilder) -> (r: Vec<char>)
    ensures
        r@ == json_array(builder@.images.map_values(|i: ImageRecord| image_json(i))),
{
    let ghost st = builder@;
    let images = builder.images();
    let mut items: Vec<Vec<char>> = Vec::new();
    let mut k: usize = 0;
    while k < images.len()
        invariant
            images@.map_values(
                |i: crate::glb_builder::GlbImage| ImageRecord { buffer_view: i.buffer_view, mime_type: i.mime_type@ },
            ) == st.images,
            k <= images.len(),
            items@.len() == k,
            forall|q: int| 0 <= q < k ==> (#[trigger] items@[q])@ == image_json(st.images[q]),
        decreases images.len() - k,
    {
        items.push(image_text(&images[k]));
        k += 1;
    }
    assert(views_of(items@) =~= st.images.map_values(|i: ImageRecord| image_json(i)));
    json_array_exec(&items)
}

fn materials_text(builder: &GlbBuilder, colors: &Vec<Vec<String>>) -> (r: Vec<char>)
    requires
        colors@.len() == builder@.materials.len(),
    ensures
        r@ == json_array(
            Seq::new(builder@.materials.len(), |q: int| material_json(builder@.materials[q], text_table(colors@)[q])),
        ),
{
    let ghost st = builder@;
    let materials = builder.materials();
    let mut items: Vec<Vec<char>> = Vec::new();
    let mut k: usize = 0;
    while k < materials.len()
        invariant
            materials@.map_values(
                |m: GlbMaterial|
                    MaterialRecord { name: m.name@, kind: m.kind, base_color: m.base_color, texture: m.texture },
            ) == st.materials,
            colors@.len() == st.materials.len(),
            k <= materials.len(),
            items@.len() == k,
            forall|q: int|
                0 <= q < k ==> (#[trigger] items@[q])@ == material_json(st.materials[q], text_table(colors@)[q]),
        decreases materials.len() - k,
    {
        items.push(material_text(&materials[k], &colors[k]));
        k += 1;
    }
    assert(views_of(items@) =~= Seq::new(
        st.materials.len(),
        |q: int| material_json(st.materials[q], text_table(colors@)[q]),
    ));
    json_array_exec(&items)
}

fn meshes_text(builder: &GlbBuilder) -> (r: Vec<char>)
    ensures
        r@ == json_array(builder@.meshes.map_values(|m: MeshRecord| mesh_json(m))),
{
    let ghost st = builder@;
    let meshes = builder.meshes();
    let mut items: Vec<Vec<char>> = Vec::new();
    let mut k: usize = 0;
    while k < meshes.len()
        invariant
            meshes@.map_values(|m: GlbMesh| MeshRecord { name: m.name@, primitive: m.primitive }) == st.meshes,
            k <= meshes.len(),
            items@.len() == k,
            forall|q: int| 0 <= q < k ==> (#[trigger] items@[q])@ == mesh_json(st.meshes[q]),
        decreases meshes.len() - k,
    {
        items.push(mesh_text(&meshes[k]));
        k += 1;
    }
    assert(views_of(items@) =~= st.meshes.map_values(|m: MeshRecord| mesh_json(m)));
    json_array_exec(&items)
}

fn nodes_text(builder: &GlbBuilder, transforms: &Vec<Vec<String>>) -> (r: Vec<char>)
    requires
        transforms@.len() == builder@.nodes.len(),
        forall|k: int| 0 <= k < transforms@.len() ==> (#[trigger] transforms@[k]).len() == 10,
    ensures
        r@ == json_array(
            Seq::new(builder@.nodes.len(), |q: int| node_json(builder@.nodes[q], text_table(transforms@)[q])),
        ),
{
    let ghost st = builder@;
    let nodes = builder.nodes();
    let mut items: Vec<Vec<char>> = Vec::new();
    let mut k: usize = 0;
    while k < nodes.len()
        invariant
            nodes@.map_values(
                |n: GlbNode| NodeRecord { name: n.name@, transform: n.transform, mesh: n.mesh, children: n.children@ },
            ) == st.nodes,
            transforms@.len() == st.nodes.len(),
            forall|q: int| 0 <= q < transforms@.len() ==> (#[trigger] transforms@[q]).len() == 10,
            k <= nodes.len(),
            items@.len() == k,
            forall|q: int|
                0 <= q < k ==> (#[trigger] items@[q])@ == node_json(st.nodes[q], text_table(transforms@)[q]),
        decreases nodes.len() - k,
    {
        items.push(node_text(&nodes[k], &transforms[k]));
        k += 1;
    }
    assert(views_of(items@) =~= Seq::new(st.nodes.len(), |q: int| node_json(st.nodes[q], text_table(transforms@)[q])));
    json_array_exec(&items)
}

fn textures_text(builder: &GlbBuilder) -> (r: Vec<char>)
    ensures
        r@ == json_array(builder@.textures.map_values(|s: usize| texture_json(s))),
{
    let ghost st = builder@;
    let textures = builder.textures();
    let mut items: Vec<Vec<char>> = Vec::new();
    let mut k: usize = 0;
    while k < textures.len()
        invariant
            textures@ == st.textures,
            k <= textures.len(),
            items@.len() == k,
            forall|q: int| 0 <= q < k ==> (#[trigger] items@[q])@ == texture_json(st.textures[q]),
        decreases textures.len() - k,
    {
        items.push(texture_text(textures[k]));
        k += 1;
    }
    assert(views_of(items@) =~= st.textures.map_values(|s: usize| texture_json(s)));
    json_array_exec(&items)
}

fn scenes_text(roots: &Vec<usize>) -> (r: Vec<char>)
    ensures
        r@ == json_array(seq![json_object(seq![("nodes"@, json_array(index_texts(roots@)))])]),
{
    let mut scene: Vec<(Vec<char>, Vec<char>)> = Vec::new();
    scene.push(field("nodes", index_array(roots)));
    let mut items: Vec<Vec<char>> = Vec::new();
    items.push(json_object_exec(&scene));
    proof {
        assert(field_views(scene@) =~= seq![("nodes"@, json_array(index_texts(roots@)))]);
        assert(views_of(items@) =~= seq![json_object(seq![("nodes"@, json_array(index_texts(roots@)))])]);
    }
    json_array_exec(&items)
}

/// The glTF JSON document of a finished export, as compact text: the
/// builder's tables, the given root nodes of the single scene, and the JSON
/// texts of the float components, record by record (accessor minimums and
/// maximums, material base colors, node transforms).
pub fn glb_json_text(
    builder: &GlbBuilder,
    roots: &Vec<usize>,
    mins: &Vec<Vec<String>>,
    maxs: &Vec<Vec<String>>,
    colors: &Vec<Vec<String>>,
    transforms: &Vec<Vec<String>>,
) -> (r: String)
    requires
        mins@.len() == builder@.accessors.len(),
        maxs@.len() == builder@.accessors.len(),
        colors@.len() == builder@.materials.len(),
        transforms@.len() == builder@.nodes.len(),
        forall|k: int| 0 <= k < transforms@.len() ==> (#[trigger] transforms@[k]).len() == 10,
    ensures
        r@ == glb_json(
            builder@,
            roots@,
            text_table(mins@),
            text_table(maxs@),
            text_table(colors@),
            text_table(transforms@),
        ),
{
    let ghost st = builder@;
    let with_images = builder.images().len() > 0;
    let mut f: Vec<(Vec<char>, Vec<char>)> = Vec::new();
    f.push(field("accessors", accessors_text(builder, mins, maxs)));
    f.push(field("asset", text("{\"generator\":\"Create3D\",\"version\":\"2.0\"}")));
    f.push(field("bufferViews", views_text(builder)));
    f.push(field("buffers", buffers_text(builder)));
    let ghost a = field_views(f@);
    if with_images {
        f.push(field("images", images_text(builder)));
    }
    let ghost b = field_views(f@);
    f.push(field("materials", materials_text(builder, colors)));
    f.push(field("meshes", meshes_text(builder)));
    f.push(field("nodes", nodes_text(builder, transforms)));
    let ghost c = field_views(f@);
    if with_images {
        f.push(field("samplers", text("[{\"magFilter\":9729,\"minFilter\":9729,\"wrapS\":10497,\"wrapT\":10497}]")));
    }
    let ghost d = field_views(f@);
    f.push(field("scene", text("0")));
    f.push(field("scenes", scenes_text(roots)));
    let ghost e = field_views(f@);
    if with_images {
        f.push(field("textures", textures_text(builder)));
    }
    proof {
        reveal_strlit("{\"generator\":\"Create3D\",\"version\":\"2.0\"}");
        reveal_strlit("[{\"magFilter\":9729,\"minFilter\":9729,\"wrapS\":10497,\"wrapT\":10497}]");
        assert(a =~= seq![
            ("accessors"@, json_array(Seq::new(st.accessors.len(), |k: int| accessor_json(st.accessors[k], text_table(mins@)[k], text_table(maxs@)[k])))),
            ("asset"@, asset_json()),
            ("bufferViews"@, json_array(st.views.map_values(|v: BufferView| view_json(v)))),
            ("buffers"@, json_array(seq![json_object(seq![("byteLength"@, decimal(st.bin.len()))])])),
        ]);
        assert(b =~= a + optional_field(
            st.images.len() > 0,
            "images"@,
            json_array(st.images.map_values(|i: ImageRecord| image_json(i))),
        ));
        assert(c =~= b + seq![
            ("materials"@, json_array(Seq::new(st.materials.len(), |k: int| material_json(st.materials[k], text_table(colors@)[k])))),
            ("meshes"@, json_array(st.meshes.map_values(|m: MeshRecord| mesh_json(m)))),
            ("nodes"@, json_array(Seq::new(st.nodes.len(), |k: int| node_json(st.nodes[k], text_table(transforms@)[k])))),
        ]);
        assert(d =~= c + optional_field(st.images.len() > 0, "samplers"@, samplers_json()));
        assert(e =~= d + seq![
            ("scene"@, "0"@),
            ("scenes"@, json_array(seq![json_object(seq![("nodes"@, json_array(index_texts(roots@)))])])),
        ]);
        assert(field_views(f@) =~= e + optional_field(
            st.images.len() > 0,
            "textures"@,
            json_array(st.textures.map_values(|s: usize| texture_json(s))),
        ));
    }
    let out = json_object_exec(&f);
    crate::text::string_from_chars(&out)
}

} // verus!
