//! Choosing which Gaussian splat chunks stay resident for a camera position.
//!
//! The distances from the camera are floating-point values, so the caller
//! measures them and hands each chunk over as a [`ChunkCandidate`]: whether
//! it lies beyond the cull distance, whether it lies within full-detail
//! distance, and an integer key that orders the chunks as their distances do
//! (for non-negative distances the bit pattern of the `f32` is such a key).
use vstd::prelude::*;

use crate::gsplat::GaussianSplatChunkRecord;

verus! {

/// One chunk as measured from the camera.
#[derive(Debug, Clone, Copy, PartialEq, Eq)]
pub struct ChunkCandidate {
    /// Chunk metadata record.
    pub chunk: GaussianSplatChunkRecord,
    /// Orders the chunks by their distance from the camera.
    pub distance_key: u32,
    /// The chunk lies beyond the cull distance.
    pub culled: bool,
    /// The chunk lies within full-detail distance.
    pub full_detail: bool,
}

/// Selected chunk with LOD stride for GPU upload.
#[derive(Debug, Clone, Copy, PartialEq, Eq)]
pub struct ChunkSelection {
    /// Chunk metadata record.
    pub chunk: GaussianSplatChunkRecord,
    /// Effective splat stride for this frame.
    pub stride: u32,
}

/// Candidate `j` comes before candidate `i`: it is nearer, or as near and
/// listed earlier.
pub open spec fn ahead_of(c: Seq<ChunkCandidate>, j: int, i: int) -> bool {
    c[j].distance_key < c[i].distance_key || (c[j].distance_key == c[i].distance_key && j < i)
}

/// Number of candidates among the first `n` that are not culled and satisfy `p`.
pub open spec fn count_kept(c: Seq<ChunkCandidate>, p: spec_fn(int) -> bool, n: int) -> nat
    decreases n,
{
    if n <= 0 {
        0
    } else {
        count_kept(c, p, n - 1) + if !c[n - 1].culled && p(n - 1) {
            1nat
        } else {
            0nat
        }
    }
}

/// Position of candidate `i` among the candidates that are not culled, nearest first.
pub open spec fn residency_rank(c: Seq<ChunkCandidate>, i: int) -> nat {
    count_kept(c, |j: int| ahead_of(c, j, i), c.len() as int)
}

/// Number of candidates that are not culled.
pub open spec fn kept_candidate_count(c: Seq<ChunkCandidate>) -> nat {
    count_kept(c, |j: int| true, c.len() as int)
}

/// The stride a chunk is drawn with: every splat within full-detail distance,
/// else its LOD stride, at least 2.
pub open spec fn stride_for(c: ChunkCandidate) -> u32 {
    if c.full_detail {
        1
    } else if c.chunk.lod_stride < 2 {
        2
    } else {
        c.chunk.lod_stride
    }
}

pub open spec fn selection_for(c: ChunkCandidate) -> ChunkSelection {
    ChunkSelection { chunk: c.chunk, stride: stride_for(c) }
}

/// The candidates up to and including `last` in nearest-first order; none
/// while nothing has been chosen.
pub open spec fn settled(c: Seq<ChunkCandidate>, last: Option<usize>, j: int) -> bool {
    match last {
        None => false,
        Some(l) => j == l || ahead_of(c, j, l as int),
    }
}

proof fn lemma_count_ext(
    c: Seq<ChunkCandidate>,
    p: spec_fn(int) -> bool,
    q: spec_fn(int) -> bool,
    n: int,
)
    requires
        n <= c.len(),
        forall|j: int| 0 <= j < n && !c[j].culled ==> (p(j) <==> q(j)),
    ensures
        count_kept(c, p, n) == count_kept(c, q, n),
    decreases n,
{
    if n > 0 {
        lemma_count_ext(c, p, q, n - 1);
    }
}

proof fn lemma_count_mono(
    c: Seq<ChunkCandidate>,
    p: spec_fn(int) -> bool,
    q: spec_fn(int) -> bool,
    n: int,
)
    requires
        n <= c.len(),
        forall|j: int| 0 <= j < n && !c[j].culled && p(j) ==> q(j),
    ensures
        count_kept(c, p, n) <= count_kept(c, q, n),
    decreases n,
{
    if n > 0 {
        lemma_count_mono(c, p, q, n - 1);
    }
}

/// With a witness `w` that `q` holds of and `p` does not, the count grows.
proof fn lemma_count_strict(
    c: Seq<ChunkCandidate>,
    p: spec_fn(int) -> bool,
    q: spec_fn(int) -> bool,
    n: int,
    w: int,
)
    requires
        n <= c.len(),
        forall|j: int| 0 <= j < n && !c[j].culled && p(j) ==> q(j),
        0 <= w < n,
        !c[w].culled,
        q(w),
        !p(w),
    ensures
        count_kept(c, p, n) < count_kept(c, q, n),
    decreases n,
{
    if w < n - 1 {
        lemma_count_strict(c, p, q, n - 1, w);
    } else {
        lemma_count_mono(c, p, q, n - 1);
    }
}

/// Adding one uncounted candidate `w` to a predicate adds one to its count.
proof fn lemma_count_add_one(
    c: Seq<ChunkCandidate>,
    p: spec_fn(int) -> bool,
    q: spec_fn(int) -> bool,
    n: int,
    w: int,
)
    requires
        n <= c.len(),
        0 <= w < n,
        !c[w].culled,
        !p(w),
        forall|j: int| 0 <= j < n && !c[j].culled ==> (q(j) <==> (p(j) || j == w)),
    ensures
        count_kept(c, q, n) == count_kept(c, p, n) + 1,
    decreases n,
{
    if w < n - 1 {
        lemma_count_add_one(c, p, q, n - 1, w);
    } else {
        lemma_count_ext(c, p, q, n - 1);
    }
}

proof fn lemma_count_none(c: Seq<ChunkCandidate>, p: spec_fn(int) -> bool, n: int)
    requires
        n <= c.len(),
        forall|j: int| 0 <= j < n && !c[j].culled ==> !p(j),
    ensures
        count_kept(c, p, n) == 0,
    decreases n,
{
    if n > 0 {
        lemma_count_none(c, p, n - 1);
    }
}

fn is_ahead(c: &Vec<ChunkCandidate>, j: usize, i: usize) -> (r: bool)
    requires
        j < c.len(),
        i < c.len(),
    ensures
        r == ahead_of(c@, j as int, i as int),
{
    c[j].distance_key < c[i].distance_key || (c[j].distance_key == c[i].distance_key && j < i)
}

fn stride_of(c: &ChunkCandidate) -> (r: u32)
    ensures
        r == stride_for(*c),
{
    if c.full_detail {
        1
    } else if c.chunk.lod_stride < 2 {
        2
    } else {
        c.chunk.lod_stride
    }
}

/// The candidate after `last` in nearest-first order among those not culled,
/// if there is one.
fn next_nearest(c: &Vec<ChunkCandidate>, last: Option<usize>) -> (r: Option<usize>)
    requires
        last matches Some(l) ==> l < c.len(),
    ensures
        match r {
            None => forall|k: int|
                0 <= k < c.len() && !c@[k].culled ==> settled(c@, last, k),
            Some(m) => {
                &&& m < c.len()
                &&& !c@[m as int].culled
                &&& !settled(c@, last, m as int)
                &&& forall|k: int|
                    0 <= k < c.len() && !c@[k].culled && !settled(c@, last, k) ==> k == m
                        || ahead_of(c@, m as int, k)
            },
        },
{
    let mut best: Option<usize> = None;
    let mut j: usize = 0;
    while j < c.len()
        invariant
            j <= c.len(),
            last matches Some(l) ==> l < c.len(),
            match best {
                None => forall|k: int|
                    0 <= k < j && !c@[k].culled ==> settled(c@, last, k),
                Some(b) => {
                    &&& b < j
                    &&& !c@[b as int].culled
                    &&& !settled(c@, last, b as int)
                    &&& forall|k: int|
                        0 <= k < j && !c@[k].culled && !settled(c@, last, k) ==> k == b
                            || ahead_of(c@, b as int, k)
                },
            },
        decreases c.len() - j,
    {
        let open = match last {
            None => true,
            Some(l) => is_ahead(c, l, j),
        };
        if !c[j].culled && open {
            let better = match best {
                None => true,
                Some(b) => is_ahead(c, j, b),
            };
            if better {
                best = Some(j);
            }
        }
        j = j + 1;
    }
    best
}

/// Select resident chunks near the camera without requiring all GPU data at
/// once: the candidates that are not culled, nearest first (ties in listed
/// order), at most `max_resident_chunks` of them, each with the stride it is
/// drawn with.
pub fn select_resident_chunks(candidates: &Vec<ChunkCandidate>, max_resident_chunks: usize) -> (r:
    Vec<ChunkSelection>)
    ensures
        r.len() == if max_resident_chunks < kept_candidate_count(candidates@) {
            max_resident_chunks as nat
        } else {
            kept_candidate_count(candidates@)
        },
        forall|i: int|
            0 <= i < candidates.len() && !candidates@[i].culled && residency_rank(candidates@, i)
                < r.len() ==> r@[residency_rank(candidates@, i) as int] == selection_for(
                candidates@[i],
            ),
{
    let ghost c = candidates@;
    let ghost n = c.len() as int;
    let mut out: Vec<ChunkSelection> = Vec::new();
    let mut last: Option<usize> = None;
    let mut searching = true;
    proof {
        lemma_count_none(c, |j: int| settled(c, last, j), n);
    }
    while searching && out.len() < max_resident_chunks
        invariant
            c == candidates@,
            n == c.len(),
            out.len() <= max_resident_chunks,
            last matches Some(l) ==> l < n && !c[l as int].culled,
            count_kept(c, |j: int| settled(c, last, j), n) == out.len(),
            forall|i: int|
                0 <= i < n && !c[i].culled ==> (residency_rank(c, i) < out.len() <==> settled(
                    c,
                    last,
                    i,
                )),
            forall|i: int|
                0 <= i < n && !c[i].culled && settled(c, last, i) ==> out@[residency_rank(c, i) as int]
                    == selection_for(c[i]),
            !searching ==> forall|k: int| 0 <= k < n && !c[k].culled ==> settled(c, last, k),
        decreases max_resident_chunks - out.len(), if searching { 1int } else { 0int },
    {
        match next_nearest(candidates, last) {
            None => {
                searching = false;
            },
            Some(m) => {
                let ghost old_last = last;
                let ghost before = |j: int| settled(c, old_last, j);
                let ghost ahead_m = |j: int| ahead_of(c, j, m as int);
                let ghost after = |j: int| settled(c, Some(m), j);
                proof {
                    // What came before `m` is exactly what was settled.
                    assert forall|j: int| 0 <= j < n && !c[j].culled implies (ahead_m(j) <==> before(
                        j,
                    )) by {
                        if ahead_m(j) && !before(j) {
                            assert(j == m || ahead_of(c, m as int, j));
                        }
                    }
                    lemma_count_ext(c, ahead_m, before, n);
                    assert forall|j: int| 0 <= j < n && !c[j].culled implies (after(j) <==> (
                    before(j) || j == m)) by {
                        if !before(j) && j != m && after(j) {
                            assert(j == m || ahead_of(c, m as int, j));
                        }
                    }
                    lemma_count_add_one(c, before, after, n, m as int);
                    // Every candidate not yet settled other than `m` comes after it.
                    assert forall|i: int|
                        0 <= i < n && !c[i].culled && !before(i) && i != m implies residency_rank(
                        c,
                        i,
                    ) > residency_rank(c, m as int) by {
                        assert(ahead_of(c, m as int, i));
                        let ahead_i = |j: int| ahead_of(c, j, i);
                        lemma_count_strict(c, ahead_m, ahead_i, n, m as int);
                    }
                }
                out.push(selection_for_exec(&candidates[m]));
                last = Some(m);
                proof {
                    assert forall|i: int|
                        0 <= i < n && !c[i].culled implies (residency_rank(c, i) < out.len()
                        <==> settled(c, last, i)) by {
                        if !before(i) && i != m {
                            assert(residency_rank(c, i) > residency_rank(c, m as int));
                        }
                    }
                    assert forall|i: int|
                        0 <= i < n && !c[i].culled && settled(c, last, i) implies out@[residency_rank(
                            c,
                            i,
                        ) as int] == selection_for(c[i]) by {
                        if i != m {
                            assert(before(i));
                        }
                    }
                }
            },
        }
    }
    proof {
        if !searching {
            lemma_count_ext(c, |j: int| settled(c, last, j), |j: int| true, n);
        } else {
            lemma_count_mono(c, |j: int| settled(c, last, j), |j: int| true, n);
        }
        assert forall|i: int|
            0 <= i < n && !c[i].culled && residency_rank(c, i) < out.len() implies out@[residency_rank(
                c,
                i,
            ) as int] == selection_for(c[i]) by {
            assert(settled(c, last, i));
        }
    }
    out
}

fn selection_for_exec(c: &ChunkCandidate) -> (r: ChunkSelection)
    ensures
        r == selection_for(*c),
{
    ChunkSelection { chunk: c.chunk, stride: stride_of(c) }
}

} // verus!
