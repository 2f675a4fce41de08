//! Mesh asset payloads and their topology checks.
//!
//! Floating-point attributes are carried as the bit patterns of their `f32`
//! values: the checks here read only counts and indices.
use vstd::prelude::*;

use crate::text::{decimal, decimal_string, push_str};

verus! {

/// Mesh asset error type.
#[derive(Debug, Clone, PartialEq, Eq)]
pub enum MeshAssetError {
    /// JSON serialization failure.
    Serialization(String),
    /// Mesh data is invalid.
    Invalid(String),
}

/// CPU-side mesh asset payload stored in AssetDB blobs.
#[derive(Debug, Clone, PartialEq)]
pub struct MeshAssetData {
    /// Mesh blob schema version.
    pub version: u32,
    /// Vertex positions in object space (`f32` bits).
    pub positions: Vec<[u32; 3]>,
    /// Optional per-vertex normals (`f32` bits).
    pub normals: Vec<[u32; 3]>,
    /// Optional per-vertex UV coordinates (`f32` bits).
    pub uvs: Vec<[u32; 2]>,
    /// Optional per-vertex tangents as XYZ + handedness (`f32` bits).
    pub tangents: Vec<[u32; 4]>,
    /// Triangle indices.
    pub indices: Vec<u32>,
}

/// The problem with face `face` of the index list, if any: a repeated
/// corner, or a corner at or beyond the vertex count (corners in order).
pub open spec fn face_problem(indices: Seq<u32>, vertex_count: u32, face: int) -> Option<Seq<char>> {
    let a = indices[3 * face];
    let b = indices[3 * face + 1];
    let c = indices[3 * face + 2];
    if a == b || b == c || c == a {
        Some("face "@ + decimal(face as nat) + " is degenerate"@)
    } else if a >= vertex_count {
        Some(out_of_range(face, a))
    } else if b >= vertex_count {
        Some(out_of_range(face, b))
    } else if c >= vertex_count {
        Some(out_of_range(face, c))
    } else {
        None
    }
}

pub open spec fn out_of_range(face: int, index: u32) -> Seq<char> {
    "face "@ + decimal(face as nat) + " references out-of-range index "@ + decimal(index as nat)
}

/// The first problem among faces `from..`.
pub open spec fn faces_problem(indices: Seq<u32>, vertex_count: u32, from: int) -> Option<Seq<char>>
    decreases indices.len() / 3 - from,
{
    if from < 0 || from >= indices.len() / 3 {
        None
    } else {
        match face_problem(indices, vertex_count, from) {
            Some(m) => Some(m),
            None => faces_problem(indices, vertex_count, from + 1),
        }
    }
}

/// Outcome of [`MeshAssetData::validate`], with the message of the first
/// failed check.
pub open spec fn mesh_check(
    positions: nat,
    normals: nat,
    uvs: nat,
    tangents: nat,
    indices: Seq<u32>,
) -> Result<(), Seq<char>> {
    if positions == 0 {
        Err("mesh has no positions"@)
    } else if normals != 0 && normals != positions {
        Err("normal count must match position count"@)
    } else if uvs != 0 && uvs != positions {
        Err("uv count must match position count"@)
    } else if tangents != 0 && tangents != positions {
        Err("tangent count must match position count"@)
    } else if indices.len() % 3 != 0 {
        Err("index count must be a multiple of three"@)
    } else {
        match faces_problem(indices, (positions as int % 0x1_0000_0000) as u32, 0) {
            Some(m) => Err(m),
            None => Ok(()),
        }
    }
}

pub open spec fn mesh_error_result(r: Result<(), MeshAssetError>) -> Result<(), Seq<char>> {
    match r {
        Ok(()) => Ok(()),
        Err(MeshAssetError::Invalid(m)) => Err(m@),
        Err(MeshAssetError::Serialization(m)) => Err("serialization error: "@ + m@),
    }
}

fn face_message(face: usize, rest: &str) -> (r: String)
    ensures
        r@ == "face "@ + decimal(face as nat) + rest@,
{
    let mut r = "face ".to_owned();
    push_str(&mut r, decimal_string(face as u64).as_str());
    push_str(&mut r, rest);
    r
}

fn out_of_range_message(face: usize, index: u32) -> (r: String)
    ensures
        r@ == out_of_range(face as int, index),
{
    let mut r = face_message(face, " references out-of-range index ");
    push_str(&mut r, decimal_string(index as u64).as_str());
    r
}

impl Default for MeshAssetData {
    /// An empty mesh of schema version 1.
    fn default() -> (r: Self)
        ensures
            r.version == 1,
            r.positions@.len() == 0,
            r.normals@.len() == 0,
            r.uvs@.len() == 0,
            r.tangents@.len() == 0,
            r.indices@.len() == 0,
    {
        MeshAssetData::empty()
    }
}

impl MeshAssetData {
    /// An empty mesh of schema version 1.
    pub fn empty() -> (r: Self)
        ensures
            r.version == 1,
            r.positions@.len() == 0,
            r.normals@.len() == 0,
            r.uvs@.len() == 0,
            r.tangents@.len() == 0,
            r.indices@.len() == 0,
    {
        MeshAssetData {
            version: 1,
            positions: Vec::new(),
            normals: Vec::new(),
            uvs: Vec::new(),
            tangents: Vec::new(),
            indices: Vec::new(),
        }
    }

    /// Validate mesh topology and attribute lengths.
    pub fn validate(&self) -> (r: Result<(), MeshAssetError>)
        ensures
            mesh_error_result(r) == mesh_check(
                self.positions.len() as nat,
                self.normals.len() as nat,
                self.uvs.len() as nat,
                self.tangents.len() as nat,
                self.indices@,
            ),
            r matches Err(e) ==> e is Invalid,
    {
        let n = self.positions.len();
        if n == 0 {
            return Err(MeshAssetError::Invalid("mesh has no positions".to_owned()));
        }
        if self.normals.len() != 0 && self.normals.len() != n {
            return Err(MeshAssetError::Invalid("normal count must match position count".to_owned()));
        }
        if self.uvs.len() != 0 && self.uvs.len() != n {
            return Err(MeshAssetError::Invalid("uv count must match position count".to_owned()));
        }
        if self.tangents.len() != 0 && self.tangents.len() != n {
            return Err(MeshAssetError::Invalid("tangent count must match position count".to_owned()));
        }
        if self.indices.len() % 3 != 0 {
            return Err(MeshAssetError::Invalid("index count must be a multiple of three".to_owned()));
        }
        #[verifier::truncate]
        let vertex_count = n as u32;
        assert(vertex_count == (n as int % 0x1_0000_0000) as u32) by (bit_vector)
            requires
                vertex_count == #[verifier::truncate] (n as u32),
        ;
        let faces = self.indices.len() / 3;
        let mut face: usize = 0;
        while face < faces
            invariant
                faces == self.indices.len() / 3,
                self.indices.len() % 3 == 0,
                n == self.positions.len(),
                n > 0,
                !(self.normals.len() != 0 && self.normals.len() != n),
                !(self.uvs.len() != 0 && self.uvs.len() != n),
                !(self.tangents.len() != 0 && self.tangents.len() != n),
                vertex_count == (n as int % 0x1_0000_0000) as u32,
                face <= faces,
                faces_problem(self.indices@, vertex_count, 0) == faces_problem(
                    self.indices@,
                    vertex_count,
                    face as int,
                ),
            decreases faces - face,
        {
            assert(faces_problem(self.indices@, vertex_count, face as int) == match face_problem(
                self.indices@,
                vertex_count,
                face as int,
            ) {
                Some(m) => Some(m),
                None => faces_problem(self.indices@, vertex_count, face + 1),
            });
            let a = self.indices[3 * face];
            let b = self.indices[3 * face + 1];
            let c = self.indices[3 * face + 2];
            if a == b || b == c || c == a {
                return Err(MeshAssetError::Invalid(face_message(face, " is degenerate")));
            }
            if a >= vertex_count {
                return Err(MeshAssetError::Invalid(out_of_range_message(face, a)));
            }
            if b >= vertex_count {
                return Err(MeshAssetError::Invalid(out_of_range_message(face, b)));
            }
            if c >= vertex_count {
                return Err(MeshAssetError::Invalid(out_of_range_message(face, c)));
            }
            face += 1;
        }
        Ok(())
    }

    /// The check that precedes encoding: a mesh is encoded only when valid.
    pub fn check_encodable(&self) -> (r: Result<(), MeshAssetError>)
        ensures
            mesh_error_result(r) == mesh_check(
                self.positions.len() as nat,
                self.normals.len() as nat,
                self.uvs.len() as nat,
                self.tangents.len() as nat,
                self.indices@,
            ),
    {
        self.validate()
    }
}

/// Helper for reading and writing mesh assets.
#[derive(Debug, Clone, Default)]
pub struct MeshAsset;

/// Triangle `face` of the index list has three distinct corners, each below
/// the vertex count.
pub open spec fn triangle_ok(indices: Seq<u32>, vertex_count: u32, face: int) -> bool {
    let a = indices[3 * face];
    let b = indices[3 * face + 1];
    let c = indices[3 * face + 2];
    &&& a != b && b != c && c != a
    &&& a < vertex_count && b < vertex_count && c < vertex_count
}

proof fn lemma_faces_problem(indices: Seq<u32>, vertex_count: u32, from: int)
    requires
        0 <= from,
    ensures
        faces_problem(indices, vertex_count, from) is None <==> forall|f: int|
            from <= f < indices.len() / 3 ==> #[trigger] triangle_ok(indices, vertex_count, f),
    decreases indices.len() / 3 - from,
{
    if from < indices.len() / 3 {
        lemma_faces_problem(indices, vertex_count, from + 1);
        assert(face_problem(indices, vertex_count, from) is None <==> triangle_ok(indices, vertex_count, from));
        if forall|f: int| from <= f < indices.len() / 3 ==> #[trigger] triangle_ok(indices, vertex_count, f) {
            assert(triangle_ok(indices, vertex_count, from));
        }
    }
}

/// [`MeshAssetData::validate`] accepts a mesh exactly when it has positions,
/// each non-empty attribute column matches them in length, the index list
/// is whole triangles, and every triangle has three distinct corners below
/// the vertex count (the position count as the `u32` it is converted to).
pub proof fn law_valid_mesh_triangles(positions: nat, normals: nat, uvs: nat, tangents: nat, indices: Seq<u32>)
    ensures
        mesh_check(positions, normals, uvs, tangents, indices) is Ok <==> {
            &&& positions > 0
            &&& normals == 0 || normals == positions
            &&& uvs == 0 || uvs == positions
            &&& tangents == 0 || tangents == positions
            &&& indices.len() % 3 == 0
            &&& forall|f: int|
                0 <= f < indices.len() / 3 ==> #[trigger] triangle_ok(
                    indices,
                    (positions as int % 0x1_0000_0000) as u32,
                    f,
                )
        },
{
    lemma_faces_problem(indices, (positions as int % 0x1_0000_0000) as u32, 0);
}

} // verus!
