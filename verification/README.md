# create3d

The asset, import/export and copilot logic of the Create3D editor, written in
Verus. Every function in `src/` carries a contract. Verus proves the contracts
of the library's own functions; the functions marked
`#[verifier::external_body]` are the trusted boundary to std and the outside
crates (BLAKE3, roxmltree, gltf, image): their bodies make the outside
calls and convert the values, and their contracts are believed, not proved.

- `src/` is the verified library. Floating-point values (positions, colors,
  transforms) are carried as the bit patterns of their `f32`/`f64` values, so
  the library moves and checks them without computing on them.
- `app/` holds what the library cannot: file and network I/O, JSON through
  serde, and the arithmetic on floats (distances, bounds,
  transforms, number parsing and formatting). It hands the library plain
  values; scenes arrive as trees of entities with their assets loaded.
- `tests/` exercises the library on concrete values.

Modules of the library:

| module | content |
|---|---|
| `text` | character-level string operations with specifications |
| `keyed`, `tools` | tool registry and tool-call argument validation |
| `copilot` | context packs, prompt intents, proposals, chat replies |
| `hash`, `assetdb` | content hashes (BLAKE3) and the asset index |
| `mesh`, `material`, `pointcloud`, `gsplat`, `columns` | asset payloads and their checks |
| `residency` | which splat chunks stay resident for a camera |
| `gsplat_import` | 3DGS PLY header detection and table parsing, chunking by cells |
| `xml`, `collada` | XML through roxmltree, COLLADA mesh import |
| `gltf_layout` | the layout of a parsed glTF file, and what the `gltf` crate's loaders and readers can take |
| `gltf_import` | reading glTF/GLB bytes through the `gltf` crate, naming, checking and PNG re-encoding of their content, the node trees of the chosen scene; entities for the imported nodes |
| `usd`, `usd_export` | prim names, integer arrays, the `.usda` layout of a scene tree |
| `gltf_json` | the glTF JSON document of an export as text |
| `glb`, `glb_builder`, `gltf_export` | the GLB container, glTF buffers and tables, a scene tree as glTF nodes |
| `ply_export`, `export` | merged point cloud and splat snapshots, PLY headers, export reports |
| `bridge` | robotics bridge joint-name parsing |
