//! Merging point cloud chunks into one ASCII PLY snapshot, and the PLY
//! headers of the point cloud and Gaussian splat snapshots.
//!
//! Positions and intensities are carried as the bit patterns of their `f32`
//! values; placing chunk points in world space is the caller's part.
use vstd::prelude::*;

use crate::pointcloud::{PointCloudAssetData, PointCloudChunkPayload};
use crate::text::{decimal, decimal_string, push_str};

verus! {

/// `n` entries of `column`, with `default` for the rows it lacks.
pub open spec fn column_or<T>(column: Seq<T>, n: nat, default: T) -> Seq<T> {
    Seq::new(n, |i: int| if i < column.len() { column[i] } else { default })
}

/// Text of the point cloud PLY header for `count` points and the attribute
/// columns present.
pub open spec fn point_cloud_ply_header(
    count: nat,
    has_rgb: bool,
    has_intensity: bool,
    has_classification: bool,
) -> Seq<char> {
    "ply\nformat ascii 1.0\n"@ + "element vertex "@ + decimal(count) + "\n"@
        + "property float x\nproperty float y\nproperty float z\n"@ + (if has_rgb {
        "property uchar red\nproperty uchar green\nproperty uchar blue\n"@
    } else {
        Seq::empty()
    }) + (if has_intensity {
        "property float intensity\n"@
    } else {
        Seq::empty()
    }) + (if has_classification {
        "property uchar classification\n"@
    } else {
        Seq::empty()
    }) + "end_header\n"@
}

/// Text of the 3DGS PLY header for `count` splats.
pub open spec fn gsplat_ply_header(count: nat) -> Seq<char> {
    "ply\nformat ascii 1.0\n"@ + "element vertex "@ + decimal(count) + "\n"@
        + "property float x\nproperty float y\nproperty float z\n"@
        + "property float f_dc_0\nproperty float f_dc_1\nproperty float f_dc_2\n"@
        + "property float opacity\n"@
        + "property float scale_0\nproperty float scale_1\nproperty float scale_2\n"@
        + "property float rot_0\nproperty float rot_1\nproperty float rot_2\nproperty float rot_3\n"@
        + "end_header\n"@
}

/// The 3DGS PLY header for `count` splats.
pub fn gsplat_header_text(count: u64) -> (r: String)
    ensures
        r@ == gsplat_ply_header(count as nat),
{
    let mut h = "ply\nformat ascii 1.0\n".to_owned();
    push_str(&mut h, "element vertex ");
    let d = decimal_string(count);
    push_str(&mut h, d.as_str());
    push_str(&mut h, "\n");
    push_str(&mut h, "property float x\nproperty float y\nproperty float z\n");
    push_str(&mut h, "property float f_dc_0\nproperty float f_dc_1\nproperty float f_dc_2\n");
    push_str(&mut h, "property float opacity\n");
    push_str(&mut h, "property float scale_0\nproperty float scale_1\nproperty float scale_2\n");
    push_str(
        &mut h,
        "property float rot_0\nproperty float rot_1\nproperty float rot_2\nproperty float rot_3\n",
    );
    push_str(&mut h, "end_header\n");
    h
}

/// Point cloud chunks merged into one world-space snapshot.
///
/// The attribute columns hold entries only for the points of chunks whose
/// asset has that attribute, so they may be shorter than `positions`; rows
/// past the end of a column are written with its default.
#[derive(Debug, Clone, PartialEq, Eq)]
pub struct MergedPointCloud {
    /// World-space positions (`f32` bits).
    pub positions: Vec<[u32; 3]>,
    /// RGB colors.
    pub colors: Vec<[u8; 3]>,
    /// Intensity values (`f32` bits).
    pub intensity: Vec<u32>,
    /// Classification ids.
    pub classification: Vec<u8>,
    /// Some merged asset has RGB colors.
    pub has_rgb: bool,
    /// Some merged asset has intensity values.
    pub has_intensity: bool,
    /// Some merged asset has classification values.
    pub has_classification: bool,
}

impl MergedPointCloud {
    /// An empty snapshot with no attribute columns.
    pub fn new() -> (r: Self)
        ensures
            r.positions@.len() == 0,
            r.colors@.len() == 0,
            r.intensity@.len() == 0,
            r.classification@.len() == 0,
            !r.has_rgb,
            !r.has_intensity,
            !r.has_classification,
    {
        MergedPointCloud {
            positions: Vec::new(),
            colors: Vec::new(),
            intensity: Vec::new(),
            classification: Vec::new(),
            has_rgb: false,
            has_intensity: false,
            has_classification: false,
        }
    }

    /// Number of merged points.
    pub fn point_count(&self) -> (r: usize)
        ensures
            r == self.positions.len(),
    {
        self.positions.len()
    }

    /// Appends the points of one chunk, given its points placed in world
    /// space, with the attributes its asset has: white, zero intensity and
    /// class 0 where the chunk lacks a value.
    pub fn append_payload(
        &mut self,
        payload: &PointCloudChunkPayload,
        metadata: &PointCloudAssetData,
        world_positions: &Vec<[u32; 3]>,
    )
        requires
            world_positions.len() == payload.positions.len(),
        ensures
            final(self).has_rgb == (old(self).has_rgb || metadata.has_rgb),
            final(self).has_intensity == (old(self).has_intensity || metadata.has_intensity),
            final(self).has_classification == (old(self).has_classification
                || metadata.has_classification),
            final(self).positions@ == old(self).positions@ + world_positions@,
            final(self).colors@ == old(self).colors@ + if metadata.has_rgb {
                column_or(payload.colors@, payload.positions.len() as nat, [255u8, 255u8, 255u8])
            } else {
                Seq::empty()
            },
            final(self).intensity@ == old(self).intensity@ + if metadata.has_intensity {
                column_or(payload.intensity@, payload.positions.len() as nat, 0u32)
            } else {
                Seq::empty()
            },
            final(self).classification@ == old(self).classification@
                + if metadata.has_classification {
                column_or(payload.classification@, payload.positions.len() as nat, 0u8)
            } else {
                Seq::empty()
            },
    {
        self.has_rgb = self.has_rgb || metadata.has_rgb;
        self.has_intensity = self.has_intensity || metadata.has_intensity;
        self.has_classification = self.has_classification || metadata.has_classification;
        let n = payload.positions.len();
        let ghost p0 = self.positions@;
        let ghost c0 = self.colors@;
        let ghost i0 = self.intensity@;
        let ghost k0 = self.classification@;
        let mut index: usize = 0;
        while index < n
            invariant
                n == payload.positions.len(),
                n == world_positions.len(),
                index <= n,
                self.has_rgb == (old(self).has_rgb || metadata.has_rgb),
                self.has_intensity == (old(self).has_intensity || metadata.has_intensity),
                self.has_classification == (old(self).has_classification
                    || metadata.has_classification),
                p0 == old(self).positions@,
                c0 == old(self).colors@,
                i0 == old(self).intensity@,
                k0 == old(self).classification@,
                self.positions@ == p0 + world_positions@.take(index as int),
                self.colors@ == c0 + if metadata.has_rgb {
                    column_or(payload.colors@, n as nat, [255u8, 255u8, 255u8]).take(index as int)
                } else {
                    Seq::empty()
                },
                self.intensity@ == i0 + if metadata.has_intensity {
                    column_or(payload.intensity@, n as nat, 0u32).take(index as int)
                } else {
                    Seq::empty()
                },
                self.classification@ == k0 + if metadata.has_classification {
                    column_or(payload.classification@, n as nat, 0u8).take(index as int)
                } else {
                    Seq::empty()
                },
            decreases n - index,
        {
            self.positions.push(world_positions[index]);
            if metadata.has_rgb {
                let color = if index < payload.colors.len() {
                    payload.colors[index]
                } else {
                    [255u8, 255u8, 255u8]
                };
                self.colors.push(color);
            }
            if metadata.has_intensity {
                let value = if index < payload.intensity.len() {
                    payload.intensity[index]
                } else {
                    0u32
                };
                self.intensity.push(value);
            }
            if metadata.has_classification {
                let value = if index < payload.classification.len() {
                    payload.classification[index]
                } else {
                    0u8
                };
                self.classification.push(value);
            }
            index = index + 1;
            proof {
                assert(world_positions@.take(index as int) =~= world_positions@.take(
                    index - 1,
                ).push(world_positions@[index - 1]));
                let cc = column_or(payload.colors@, n as nat, [255u8, 255u8, 255u8]);
                assert(cc.take(index as int) =~= cc.take(index - 1).push(cc[index - 1]));
                let ci = column_or(payload.intensity@, n as nat, 0u32);
                assert(ci.take(index as int) =~= ci.take(index - 1).push(ci[index - 1]));
                let ck = column_or(payload.classification@, n as nat, 0u8);
                assert(ck.take(index as int) =~= ck.take(index - 1).push(ck[index - 1]));
            }
        }
        proof {
            assert(world_positions@.take(n as int) =~= world_positions@);
            let cc = column_or(payload.colors@, n as nat, [255u8, 255u8, 255u8]);
            assert(cc.take(n as int) =~= cc);
            let ci = column_or(payload.intensity@, n as nat, 0u32);
            assert(ci.take(n as int) =~= ci);
            let ck = column_or(payload.classification@, n as nat, 0u8);
            assert(ck.take(n as int) =~= ck);
        }
    }

    /// The PLY header for the merged points and the attribute columns present.
    pub fn header(&self) -> (r: String)
        ensures
            r@ == point_cloud_ply_header(
                self.positions.len() as nat,
                self.has_rgb,
                self.has_intensity,
                self.has_classification,
            ),
    {
        let mut h = "ply\nformat ascii 1.0\n".to_owned();
        push_str(&mut h, "element vertex ");
        let d = decimal_string(self.positions.len() as u64);
        push_str(&mut h, d.as_str());
        push_str(&mut h, "\n");
        push_str(&mut h, "property float x\nproperty float y\nproperty float z\n");
        let ghost base = h@;
        if self.has_rgb {
            push_str(&mut h, "property uchar red\nproperty uchar green\nproperty uchar blue\n");
        }
        let ghost with_rgb = h@;
        if self.has_intensity {
            push_str(&mut h, "property float intensity\n");
        }
        let ghost with_intensity = h@;
        if self.has_classification {
            push_str(&mut h, "property uchar classification\n");
        }
        push_str(&mut h, "end_header\n");
        proof {
            assert(with_rgb == base + (if self.has_rgb {
                "property uchar red\nproperty uchar green\nproperty uchar blue\n"@
            } else {
                Seq::<char>::empty()
            }));
            assert(with_intensity == with_rgb + (if self.has_intensity {
                "property float intensity\n"@
            } else {
                Seq::<char>::empty()
            }));
        }
        h
    }
}

/// Point cloud PLY export failures.
#[derive(Debug, Clone, PartialEq, Eq)]
pub enum ExportError {
    /// IO failure.
    Io(String),
    /// Scene had no exportable point cloud content.
    EmptyScene,
    /// Asset lookup failure.
    Asset(String),
}

/// Mathematical content of an [`ExportError`].
pub enum ExportErrorModel {
    Io(Seq<char>),
    EmptyScene,
    Asset(Seq<char>),
}

impl View for ExportError {
    type V = ExportErrorModel;

    open spec fn view(&self) -> ExportErrorModel {
        match self {
            ExportError::Io(m) => ExportErrorModel::Io(m@),
            ExportError::EmptyScene => ExportErrorModel::EmptyScene,
            ExportError::Asset(m) => ExportErrorModel::Asset(m@),
        }
    }
}

/// One chunk of a point cloud entity, cropped to the entity's crop box,
/// with its points placed in world space.
#[derive(Debug, Clone, PartialEq)]
pub struct PlacedChunk {
    /// The cropped chunk payload.
    pub payload: PointCloudChunkPayload,
    /// Its positions in world space (`f32` bits), one per point.
    pub world_positions: Vec<[u32; 3]>,
}

/// A point cloud entity of the scene: its metadata, and its chunks in the
/// order of the metadata's chunk records; each either loaded or the error
/// of loading it.
#[derive(Debug, PartialEq)]
pub struct PointCloudEntity {
    pub metadata: Result<PointCloudAssetData, ExportError>,
    pub chunks: Vec<Result<PlacedChunk, ExportError>>,
}

/// Mathematical content of a [`MergedPointCloud`].
pub struct MergedView {
    pub positions: Seq<[u32; 3]>,
    pub colors: Seq<[u8; 3]>,
    pub intensity: Seq<u32>,
    pub classification: Seq<u8>,
    pub has_rgb: bool,
    pub has_intensity: bool,
    pub has_classification: bool,
}

pub open spec fn merged_view(m: MergedPointCloud) -> MergedView {
    MergedView {
        positions: m.positions@,
        colors: m.colors@,
        intensity: m.intensity@,
        classification: m.classification@,
        has_rgb: m.has_rgb,
        has_intensity: m.has_intensity,
        has_classification: m.has_classification,
    }
}

/// The snapshot after appending one chunk of an asset with `metadata`.
pub open spec fn with_chunk(st: MergedView, metadata: PointCloudAssetData, c: PlacedChunk) -> MergedView {
    let n = c.payload.positions@.len();
    MergedView {
        positions: st.positions + c.world_positions@,
        colors: st.colors + if metadata.has_rgb {
            column_or(c.payload.colors@, n, [255u8, 255u8, 255u8])
        } else {
            Seq::empty()
        },
        intensity: st.intensity + if metadata.has_intensity {
            column_or(c.payload.intensity@, n, 0u32)
        } else {
            Seq::empty()
        },
        classification: st.classification + if metadata.has_classification {
            column_or(c.payload.classification@, n, 0u8)
        } else {
            Seq::empty()
        },
        has_rgb: st.has_rgb || metadata.has_rgb,
        has_intensity: st.has_intensity || metadata.has_intensity,
        has_classification: st.has_classification || metadata.has_classification,
    }
}

/// The snapshot after the first `k` chunks of an entity, and whether any of
/// them had points (chunks without points are skipped), or the first
/// loading error.
pub open spec fn entity_chunks(
    st: MergedView,
    metadata: PointCloudAssetData,
    chunks: Seq<Result<PlacedChunk, ExportError>>,
    k: int,
) -> Result<(MergedView, bool), ExportErrorModel>
    decreases k,
{
    if k <= 0 {
        Ok((st, false))
    } else {
        match entity_chunks(st, metadata, chunks, k - 1) {
            Err(x) => Err(x),
            Ok((cur, wrote)) => match chunks[k - 1] {
                Err(x) => Err(x@),
                Ok(c) => if c.payload.positions@.len() == 0 {
                    Ok((cur, wrote))
                } else {
                    Ok((with_chunk(cur, metadata, c), true))
                },
            },
        }
    }
}

pub open spec fn empty_merged() -> MergedView {
    MergedView {
        positions: Seq::empty(),
        colors: Seq::empty(),
        intensity: Seq::empty(),
        classification: Seq::empty(),
        has_rgb: false,
        has_intensity: false,
        has_classification: false,
    }
}

/// The snapshot after the first `k` entities and the number of entities
/// that contributed points, or the first loading error.
pub open spec fn entities_merged(entities: Seq<PointCloudEntity>, k: int) -> Result<(MergedView, nat), ExportErrorModel>
    decreases k,
{
    if k <= 0 {
        Ok((empty_merged(), 0))
    } else {
        match entities_merged(entities, k - 1) {
            Err(x) => Err(x),
            Ok((cur, count)) => match entities[k - 1].metadata {
                Err(x) => Err(x@),
                Ok(metadata) => match entity_chunks(
                    cur,
                    metadata,
                    entities[k - 1].chunks@,
                    entities[k - 1].chunks@.len() as int,
                ) {
                    Err(x) => Err(x),
                    Ok((next, wrote)) => Ok((next, if wrote { count + 1 } else { count })),
                },
            },
        }
    }
}

/// Every loaded chunk has one world position per point.
pub open spec fn chunks_placed(entities: Seq<PointCloudEntity>) -> bool {
    forall|i: int, j: int|
        0 <= i < entities.len() && 0 <= j < entities[i].chunks@.len() ==> (#[trigger] entities[i].chunks@[j] matches Ok(
            c,
        ) ==> c.world_positions@.len() == c.payload.positions@.len())
}

proof fn lemma_entity_chunks_err(
    st: MergedView,
    metadata: PointCloudAssetData,
    chunks: Seq<Result<PlacedChunk, ExportError>>,
    k: int,
    n: int,
)
    requires
        0 <= k <= n,
        entity_chunks(st, metadata, chunks, k) is Err,
    ensures
        entity_chunks(st, metadata, chunks, n) == entity_chunks(st, metadata, chunks, k),
    decreases n - k,
{
    if k < n {
        lemma_entity_chunks_err(st, metadata, chunks, k, n - 1);
    }
}

proof fn lemma_entities_err(entities: Seq<PointCloudEntity>, k: int, n: int)
    requires
        0 <= k <= n,
        entities_merged(entities, k) is Err,
    ensures
        entities_merged(entities, n) == entities_merged(entities, k),
    decreases n - k,
{
    if k < n {
        lemma_entities_err(entities, k, n - 1);
    }
}

fn copy_error(e: &ExportError) -> (r: ExportError)
    ensures
        r@ == e@,
{
    match e {
        ExportError::Io(m) => ExportError::Io(m.clone()),
        ExportError::EmptyScene => ExportError::EmptyScene,
        ExportError::Asset(m) => ExportError::Asset(m.clone()),
    }
}

/// Appends the chunks of one entity; says whether any of them had points.
fn merge_entity_chunks(
    merged: &mut MergedPointCloud,
    metadata: &PointCloudAssetData,
    chunks: &Vec<Result<PlacedChunk, ExportError>>,
) -> (r: Result<bool, ExportError>)
    requires
        forall|j: int|
            0 <= j < chunks@.len() ==> (#[trigger] chunks@[j] matches Ok(c) ==> c.world_positions@.len()
                == c.payload.positions@.len()),
    ensures
        match r {
            Ok(wrote) => entity_chunks(merged_view(*old(merged)), *metadata, chunks@, chunks@.len() as int)
                == Ok::<(MergedView, bool), ExportErrorModel>((merged_view(*final(merged)), wrote)),
            Err(x) => entity_chunks(merged_view(*old(merged)), *metadata, chunks@, chunks@.len() as int)
                == Err::<(MergedView, bool), ExportErrorModel>(x@),
        },
{
    let ghost st0 = merged_view(*merged);
    let mut wrote = false;
    let mut j: usize = 0;
    while j < chunks.len()
        invariant
            j <= chunks.len(),
            st0 == merged_view(*old(merged)),
            forall|j: int|
                0 <= j < chunks@.len() ==> (#[trigger] chunks@[j] matches Ok(c) ==> c.world_positions@.len()
                    == c.payload.positions@.len()),
            entity_chunks(st0, *metadata, chunks@, j as int) == Ok::<(MergedView, bool), ExportErrorModel>(
                (merged_view(*merged), wrote),
            ),
        decreases chunks.len() - j,
    {
        match &chunks[j] {
            Err(x) => {
                proof {
                    lemma_entity_chunks_err(st0, *metadata, chunks@, j + 1, chunks@.len() as int);
                }
                return Err(copy_error(x));
            },
            Ok(c) => {
                if c.payload.point_count() != 0 {
                    merged.append_payload(&c.payload, metadata, &c.world_positions);
                    wrote = true;
                }
            },
        }
        j = j + 1;
    }
    Ok(wrote)
}

/// Merges the point cloud entities of a scene, in order, into one snapshot,
/// and counts the entities that contributed points; a scene without points
/// is refused.
pub fn merge_point_clouds(entities: &Vec<PointCloudEntity>) -> (r: Result<(MergedPointCloud, usize), ExportError>)
    requires
        chunks_placed(entities@),
    ensures
        match r {
            Ok((merged, count)) => entities_merged(entities@, entities@.len() as int) == Ok::<
                (MergedView, nat),
                ExportErrorModel,
            >((merged_view(merged), count as nat)) && merged.positions@.len() > 0,
            Err(x) => match entities_merged(entities@, entities@.len() as int) {
                Err(e) => x@ == e,
                Ok((m, _)) => m.positions.len() == 0 && x@ == ExportErrorModel::EmptyScene,
            },
        },
{
    let mut merged = MergedPointCloud::new();
    let mut count: usize = 0;
    let mut i: usize = 0;
    assert(merged.positions@ =~= Seq::<[u32; 3]>::empty());
    assert(merged.colors@ =~= Seq::<[u8; 3]>::empty());
    assert(merged.intensity@ =~= Seq::<u32>::empty());
    assert(merged.classification@ =~= Seq::<u8>::empty());
    assert(merged_view(merged) == empty_merged());
    while i < entities.len()
        invariant
            i <= entities.len(),
            count <= i,
            chunks_placed(entities@),
            entities_merged(entities@, i as int) == Ok::<(MergedView, nat), ExportErrorModel>(
                (merged_view(merged), count as nat),
            ),
        decreases entities.len() - i,
    {
        let e = &entities[i];
        match &e.metadata {
            Err(x) => {
                proof {
                    lemma_entities_err(entities@, i + 1, entities@.len() as int);
                }
                return Err(copy_error(x));
            },
            Ok(metadata) => {
                assert forall|j: int| 0 <= j < e.chunks@.len() implies (#[trigger] e.chunks@[j] matches Ok(c)
                    ==> c.world_positions@.len() == c.payload.positions@.len()) by {
                    assert(entities@[i as int].chunks@[j] == e.chunks@[j]);
                }
                match merge_entity_chunks(&mut merged, metadata, &e.chunks) {
                    Err(x) => {
                        proof {
                            lemma_entities_err(entities@, i + 1, entities@.len() as int);
                        }
                        return Err(x);
                    },
                    Ok(wrote) => {
                        if wrote {
                            count = count + 1;
                        }
                    },
                }
            },
        }
        i = i + 1;
    }
    if merged.point_count() == 0 {
        return Err(ExportError::EmptyScene);
    }
    Ok((merged, count))
}

/// One splat as written to a 3DGS PLY row (`f32` bits): position, SH DC
/// color, opacity logit, log scales and rotation quaternion (xyzw).
pub type SplatRow = [u32; 14];

/// A Gaussian splat entity of the scene: whether its metadata loaded, and
/// its chunks in the order of the metadata's chunk records, each cropped
/// and converted to world-space rows, or the error of loading it.
#[derive(Debug, PartialEq)]
pub struct SplatEntity {
    pub metadata: Result<(), ExportError>,
    pub chunks: Vec<Result<Vec<SplatRow>, ExportError>>,
}

/// The rows after the first `k` chunks of an entity and whether any chunk
/// had splats, or the first loading error.
pub open spec fn splat_chunks(rows: Seq<SplatRow>, chunks: Seq<Result<Vec<SplatRow>, ExportError>>, k: int) -> Result<
    (Seq<SplatRow>, bool),
    ExportErrorModel,
>
    decreases k,
{
    if k <= 0 {
        Ok((rows, false))
    } else {
        match splat_chunks(rows, chunks, k - 1) {
            Err(x) => Err(x),
            Ok((cur, wrote)) => match chunks[k - 1] {
                Err(x) => Err(x@),
                Ok(c) => if c@.len() == 0 {
                    Ok((cur, wrote))
                } else {
                    Ok((cur + c@, true))
                },
            },
        }
    }
}

/// The rows after the first `k` entities and the number of entities that
/// contributed splats, or the first loading error.
pub open spec fn splats_merged(entities: Seq<SplatEntity>, k: int) -> Result<(Seq<SplatRow>, nat), ExportErrorModel>
    decreases k,
{
    if k <= 0 {
        Ok((Seq::empty(), 0))
    } else {
        match splats_merged(entities, k - 1) {
            Err(x) => Err(x),
            Ok((rows, count)) => match entities[k - 1].metadata {
                Err(x) => Err(x@),
                Ok(()) => match splat_chunks(rows, entities[k - 1].chunks@, entities[k - 1].chunks@.len() as int) {
                    Err(x) => Err(x),
                    Ok((next, wrote)) => Ok((next, if wrote { count + 1 } else { count })),
                },
            },
        }
    }
}

proof fn lemma_splat_chunks_err(rows: Seq<SplatRow>, chunks: Seq<Result<Vec<SplatRow>, ExportError>>, k: int, n: int)
    requires
        0 <= k <= n,
        splat_chunks(rows, chunks, k) is Err,
    ensures
        splat_chunks(rows, chunks, n) == splat_chunks(rows, chunks, k),
    decreases n - k,
{
    if k < n {
        lemma_splat_chunks_err(rows, chunks, k, n - 1);
    }
}

proof fn lemma_splats_err(entities: Seq<SplatEntity>, k: int, n: int)
    requires
        0 <= k <= n,
        splats_merged(entities, k) is Err,
    ensures
        splats_merged(entities, n) == splats_merged(entities, k),
    decreases n - k,
{
    if k < n {
        lemma_splats_err(entities, k, n - 1);
    }
}

fn append_rows(rows: &mut Vec<SplatRow>, more: &Vec<SplatRow>)
    ensures
        final(rows)@ == old(rows)@ + more@,
{
    let mut i: usize = 0;
    while i < more.len()
        invariant
            i <= more.len(),
            rows@ == old(rows)@ + more@.take(i as int),
        decreases more.len() - i,
    {
        rows.push(more[i]);
        i = i + 1;
        assert(more@.take(i as int) =~= more@.take(i - 1).push(more@[i - 1]));
    }
    assert(more@.take(i as int) =~= more@);
}

/// Merges the Gaussian splat entities of a scene, in order, into the rows
/// of one snapshot, and counts the entities that contributed splats; a
/// scene without splats is refused.
pub fn merge_splats(entities: &Vec<SplatEntity>) -> (r: Result<(Vec<SplatRow>, usize), ExportError>)
    ensures
        match r {
            Ok((rows, count)) => splats_merged(entities@, entities@.len() as int) == Ok::<
                (Seq<SplatRow>, nat),
                ExportErrorModel,
            >((rows@, count as nat)) && rows@.len() > 0,
            Err(x) => match splats_merged(entities@, entities@.len() as int) {
                Err(e) => x@ == e,
                Ok((rows, _)) => rows.len() == 0 && x@ == ExportErrorModel::EmptyScene,
            },
        },
{
    let mut rows: Vec<SplatRow> = Vec::new();
    let mut count: usize = 0;
    let mut i: usize = 0;
    assert(rows@ =~= Seq::<SplatRow>::empty());
    while i < entities.len()
        invariant
            i <= entities.len(),
            count <= i,
            splats_merged(entities@, i as int) == Ok::<(Seq<SplatRow>, nat), ExportErrorModel>(
                (rows@, count as nat),
            ),
        decreases entities.len() - i,
    {
        let e = &entities[i];
        match &e.metadata {
            Err(x) => {
                proof {
                    lemma_splats_err(entities@, i + 1, entities@.len() as int);
                }
                return Err(copy_error(x));
            },
            Ok(()) => {},
        }
        let ghost rows0 = rows@;
        let mut wrote = false;
        let mut j: usize = 0;
        while j < e.chunks.len()
            invariant
                j <= e.chunks.len(),
                i < entities.len(),
                *e == entities@[i as int],
                e.metadata is Ok,
                count <= i,
                splats_merged(entities@, i as int) == Ok::<(Seq<SplatRow>, nat), ExportErrorModel>(
                    (rows0, count as nat),
                ),
                splat_chunks(rows0, e.chunks@, j as int) == Ok::<(Seq<SplatRow>, bool), ExportErrorModel>(
                    (rows@, wrote),
                ),
            decreases e.chunks.len() - j,
        {
            match &e.chunks[j] {
                Err(x) => {
                    proof {
                        lemma_splat_chunks_err(rows0, e.chunks@, j + 1, e.chunks@.len() as int);
                        lemma_splats_err(entities@, i + 1, entities@.len() as int);
                    }
                    return Err(copy_error(x));
                },
                Ok(c) => {
                    if c.len() != 0 {
                        append_rows(&mut rows, c);
                        wrote = true;
                    }
                },
            }
            j = j + 1;
        }
        if wrote {
            count = count + 1;
        }
        i = i + 1;
    }
    if rows.len() == 0 {
        return Err(ExportError::EmptyScene);
    }
    Ok((rows, count))
}

} // verus!
