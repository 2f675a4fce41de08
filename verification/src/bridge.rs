//! The robotics bridge's command-line inputs.
use vstd::prelude::*;

use crate::text::{chars_of, fields, split_char, string_from_chars, string_views, trim, trim_chars, views_of};

verus! {

/// The trimmed, nonempty names among the first `n` fields.
pub open spec fn names_upto(fs: Seq<Seq<char>>, n: int) -> Seq<Seq<char>>
    decreases n,
{
    if n <= 0 {
        Seq::empty()
    } else if trim(fs[n - 1]).len() > 0 {
        names_upto(fs, n - 1).push(trim(fs[n - 1]))
    } else {
        names_upto(fs, n - 1)
    }
}

/// The joint names of a comma-separated list, each trimmed, empty ones left out.
pub open spec fn joint_names(raw: Seq<char>) -> Seq<Seq<char>> {
    names_upto(fields(raw, ','), fields(raw, ',').len() as int)
}

/// The joint names of a comma-separated list, each trimmed, empty ones left out.
pub fn parse_joint_names(raw: &str) -> (r: Vec<String>)
    ensures
        string_views(r@) == joint_names(raw@),
{
    let c = chars_of(raw);
    let fs = split_char(&c, ',');
    let ghost fv = views_of(fs@);
    let mut r: Vec<String> = Vec::new();
    let mut i: usize = 0;
    assert(string_views(r@) =~= Seq::<Seq<char>>::empty());
    while i < fs.len()
        invariant
            i <= fs.len(),
            fv == views_of(fs@),
            string_views(r@) == names_upto(fv, i as int),
        decreases fs.len() - i,
    {
        let t = trim_chars(&fs[i]);
        assert(fv[i as int] == fs@[i as int]@);
        if t.len() > 0 {
            let s = string_from_chars(&t);
            let ghost before = r@;
            r.push(s);
            assert(string_views(r@) =~= string_views(before).push(s@));
        }
        i += 1;
    }
    r
}

} // verus!
