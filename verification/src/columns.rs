//! Structure-of-arrays columns and filtering them by a per-row mask.
use vstd::prelude::*;

verus! {

/// Rows `i < n` of `column` whose mask entry is set (rows past the end of the
/// column are skipped).
pub open spec fn kept<T>(column: Seq<T>, keep: Seq<bool>, n: int) -> Seq<T>
    decreases n,
{
    if n <= 0 {
        Seq::empty()
    } else if keep[n - 1] && n - 1 < column.len() {
        kept(column, keep, n - 1).push(column[n - 1])
    } else {
        kept(column, keep, n - 1)
    }
}

/// Number of set mask entries among the first `n`.
pub open spec fn kept_count(keep: Seq<bool>, n: int) -> nat
    decreases n,
{
    if n <= 0 {
        0
    } else if keep[n - 1] {
        kept_count(keep, n - 1) + 1
    } else {
        kept_count(keep, n - 1)
    }
}

pub proof fn lemma_kept_len<T>(column: Seq<T>, keep: Seq<bool>, n: int)
    requires
        0 <= n <= keep.len(),
        n <= column.len(),
    ensures
        kept(column, keep, n).len() == kept_count(keep, n),
    decreases n,
{
    if n > 0 {
        lemma_kept_len(column, keep, n - 1);
    }
}

/// The rows of `column` at the set entries of `keep`.
pub fn filter_rows<T: Copy>(column: &Vec<T>, keep: &Vec<bool>) -> (r: Vec<T>)
    ensures
        r@ == kept(column@, keep@, keep@.len() as int),
{
    let mut r: Vec<T> = Vec::new();
    let mut i: usize = 0;
    while i < keep.len()
        invariant
            i <= keep.len(),
            r@ == kept(column@, keep@, i as int),
        decreases keep.len() - i,
    {
        if keep[i] && i < column.len() {
            r.push(column[i]);
        }
        i += 1;
    }
    r
}

} // verus!
