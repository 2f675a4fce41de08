//! 3D Gaussian splat PLY import: header detection, the layout of an ASCII
//! 3DGS PLY file, chunk assignment and chunk index metadata.
//!
//! Decoding the numeric columns (text to `f32`, activation functions,
//! spatial cell computation) happens around these functions.
use vstd::prelude::*;
use vstd::utf8::{decode_utf8, valid_utf8};

use crate::assetdb::AssetId;
use crate::gsplat::{GaussianSplatAssetData, GaussianSplatChunkPayload, GaussianSplatChunkRecord};
use crate::text::{
    utf8_error_text, utf8_text,
    chars_of, contains, decimal, find_spec, lemma_find_spec, lines, occurs_at, parse_usize_chars,
    parse_usize_spec, split_lines, split_ws, str_eq, string_from_chars, tokens, trim, trim_chars,
    views_of,
};

verus! {

/// 3DGS PLY import error type.
#[derive(Debug, Clone, PartialEq, Eq)]
pub enum ImportError {
    /// IO failure.
    Io(String),
    /// Unsupported or malformed PLY payload.
    Invalid(String),
}

/// The bytes of an ASCII text.
pub open spec fn ascii_of(s: Seq<char>) -> Seq<u8> {
    s.map_values(|c: char| c as u8)
}

fn ascii_bytes(s: &str) -> (r: Vec<u8>)
    ensures
        r@ == ascii_of(s@),
{
    let c = chars_of(s);
    let mut r: Vec<u8> = Vec::new();
    let mut i: usize = 0;
    while i < c.len()
        invariant
            i <= c.len(),
            c@ == s@,
            r@ == ascii_of(s@).subrange(0, i as int),
        decreases c.len() - i,
    {
        #[verifier::truncate]
        let b = c[i] as u8;
        r.push(b);
        i += 1;
    }
    assert(ascii_of(s@).subrange(0, i as int) == ascii_of(s@));
    r
}

/// The header region inspected by [`looks_like_gsplat_ply`]: the bytes up
/// to and including `end_header`, or the first 4096 bytes when there is no
/// such marker. The body after the marker (often binary) plays no part.
///
/// The names searched for are ASCII, so they occur in these bytes exactly
/// when they occur in the header's text; a character that a 4096-byte cut
/// splits holds no ASCII byte and cannot contribute to a match.
pub open spec fn gsplat_header_region(bytes: Seq<u8>) -> Seq<u8> {
    let end = match find_spec(bytes, ascii_of("end_header"@), 0) {
        Some(i) => i + 10,
        None => if bytes.len() < 4096 { bytes.len() as int } else { 4096 },
    };
    bytes.subrange(0, end)
}

/// Whether a PLY header looks like a 3D Gaussian splat export.
pub open spec fn is_gsplat_header(bytes: Seq<u8>) -> bool {
    let h = gsplat_header_region(bytes);
    &&& contains(h, ascii_of("f_dc_0"@))
    &&& contains(h, ascii_of("opacity"@))
    &&& contains(h, ascii_of("scale_0"@))
    &&& contains(h, ascii_of("rot_0"@))
}

fn occurs_at_bytes(s: &[u8], pat: &Vec<u8>, i: usize, end: usize) -> (r: bool)
    requires
        end <= s@.len(),
    ensures
        r == occurs_at(s@.subrange(0, end as int), pat@, i as int),
{
    let ghost h = s@.subrange(0, end as int);
    if i > end || pat.len() > end - i {
        return false;
    }
    let mut k: usize = 0;
    while k < pat.len()
        invariant
            i + pat.len() <= end <= s@.len(),
            h == s@.subrange(0, end as int),
            k <= pat.len(),
            forall|j: int| 0 <= j < k ==> h[i + j] == pat@[j],
        decreases pat.len() - k,
    {
        if s[i + k] != pat[k] {
            assert(h.subrange(i as int, i + pat.len())[k as int] != pat@[k as int]);
            return false;
        }
        k += 1;
    }
    assert(h.subrange(i as int, i + pat.len()) == pat@);
    true
}

fn find_bytes(s: &[u8], pat: &Vec<u8>, end: usize) -> (r: Option<usize>)
    requires
        end <= s@.len(),
    ensures
        r == match find_spec(s@.subrange(0, end as int), pat@, 0) {
            Some(i) => Some(i as usize),
            None => None::<usize>,
        },
{
    let ghost h = s@.subrange(0, end as int);
    let mut i: usize = 0;
    while i <= end
        invariant
            end <= s@.len(),
            h == s@.subrange(0, end as int),
            find_spec(h, pat@, 0) == find_spec(h, pat@, i as int),
        decreases end + 1 - i,
    {
        if occurs_at_bytes(s, pat, i, end) {
            return Some(i);
        }
        if i == end {
            assert(find_spec(h, pat@, i as int + 1) is None);
            return None;
        }
        i += 1;
    }
    None
}

fn contains_bytes(s: &[u8], pat: &Vec<u8>, end: usize) -> (r: bool)
    requires
        end <= s@.len(),
    ensures
        r == contains(s@.subrange(0, end as int), pat@),
{
    proof {
        lemma_find_spec(s@.subrange(0, end as int), pat@, 0);
    }
    find_bytes(s, pat, end).is_some()
}

/// Returns true when a PLY header looks like a 3D Gaussian splat export.
pub fn looks_like_gsplat_ply(bytes: &[u8]) -> (r: bool)
    ensures
        r == is_gsplat_header(bytes@),
{
    let marker = ascii_bytes("end_header");
    proof {
        reveal_strlit("end_header");
        assert(bytes@.subrange(0, bytes@.len() as int) == bytes@);
    }
    proof {
        lemma_find_spec(bytes@, marker@, 0);
        assert(marker@.len() == 10);
    }
    let end = match find_bytes(bytes, &marker, bytes.len()) {
        Some(i) => i + 10,
        None => if bytes.len() < 4096 { bytes.len() } else { 4096 },
    };
    proof {
        lemma_find_spec(bytes@, marker@, 0);
    }
    let a = contains_bytes(bytes, &ascii_bytes("f_dc_0"), end);
    let b = contains_bytes(bytes, &ascii_bytes("opacity"), end);
    let c = contains_bytes(bytes, &ascii_bytes("scale_0"), end);
    let d = contains_bytes(bytes, &ascii_bytes("rot_0"), end);
    a && b && c && d
}

/// Column names a 3DGS PLY must declare, in lookup order.
pub open spec fn gsplat_columns() -> Seq<Seq<char>> {
    seq![
        "x"@, "y"@, "z"@, "f_dc_0"@, "f_dc_1"@, "f_dc_2"@, "opacity"@, "scale_0"@, "scale_1"@,
        "scale_2"@, "rot_0"@, "rot_1"@, "rot_2"@, "rot_3"@,
    ]
}

/// Error message when a column is missing, per column.
pub open spec fn gsplat_column_errors() -> Seq<Seq<char>> {
    seq![
        "missing x property"@, "missing y property"@, "missing z property"@,
        "missing f_dc_0 property (not a 3DGS ply)"@, "missing f_dc_1"@, "missing f_dc_2"@,
        "missing opacity"@, "missing scale_0"@, "missing scale_1"@, "missing scale_2"@,
        "missing rot_0"@, "missing rot_1"@, "missing rot_2"@, "missing rot_3"@,
    ]
}

/// Scan of the header lines from line `i`: the vertex count and the
/// property names declared so far, until `element face` or `end_header`.
pub open spec fn header_scan(ls: Seq<Seq<char>>, i: int, count: nat, props: Seq<Seq<char>>) -> Result<
    (int, nat, Seq<Seq<char>>),
    Seq<char>,
>
    decreases ls.len() - i,
{
    if i < 0 || i >= ls.len() {
        Err("unexpected eof in header"@)
    } else {
        let line = ls[i];
        if occurs_at(line, "element vertex "@, 0) {
            let t = tokens(line);
            if t.len() > 2 && parse_usize_spec(t[2]) is Some {
                header_scan(ls, i + 1, parse_usize_spec(t[2])->0, props)
            } else {
                Err("invalid vertex count"@)
            }
        } else if occurs_at(line, "property "@, 0) {
            let t = tokens(line);
            header_scan(ls, i + 1, count, if t.len() > 0 { props.push(t.last()) } else { props })
        } else if occurs_at(line, "element face "@, 0) || trim(line) == "end_header"@ {
            Ok((i + 1, count, props))
        } else {
            header_scan(ls, i + 1, count, props)
        }
    }
}

/// Position of the first property with the given name.
pub open spec fn position_of(props: Seq<Seq<char>>, name: Seq<char>, from: int) -> Option<int>
    decreases props.len() - from,
{
    if from < 0 || from >= props.len() {
        None
    } else if props[from] == name {
        Some(from)
    } else {
        position_of(props, name, from + 1)
    }
}

/// Positions of the required columns `k..`, or the message of the first missing one.
pub open spec fn column_positions(props: Seq<Seq<char>>, k: int) -> Result<Seq<int>, Seq<char>>
    decreases 14 - k,
{
    if k < 0 || k >= 14 {
        Ok(Seq::empty())
    } else {
        match position_of(props, gsplat_columns()[k], 0) {
            None => Err(gsplat_column_errors()[k]),
            Some(p) => match column_positions(props, k + 1) {
                Err(m) => Err(m),
                Ok(rest) => Ok(seq![p] + rest),
            },
        }
    }
}

/// Layout of an ASCII 3DGS PLY text: the index of the first data line, the
/// vertex count, and the position of each required column.
pub open spec fn gsplat_layout(text: Seq<char>) -> Result<(int, nat, Seq<int>), Seq<char>> {
    let ls = lines(text);
    if ls.len() == 0 {
        Err("empty ply"@)
    } else if trim(ls[0]) != "ply"@ {
        Err("missing ply header"@)
    } else {
        match header_scan(ls, 1, 0, Seq::empty()) {
            Err(m) => Err(m),
            Ok((start, count, props)) => if count == 0 {
                Err("ply has zero vertices"@)
            } else {
                match column_positions(props, 0) {
                    Err(m) => Err(m),
                    Ok(cols) => Ok((start, count, cols)),
                }
            },
        }
    }
}

/// The table of an ASCII 3DGS PLY: vertex count, positions of the required
/// columns, and the whitespace-separated fields of the data lines present.
#[derive(Debug, Clone, PartialEq)]
pub struct GsplatPlyTable {
    /// Declared vertex count.
    pub vertex_count: usize,
    /// Field positions of x, y, z, f_dc_0..2, opacity, scale_0..2, rot_0..3.
    pub columns: Vec<usize>,
    /// Fields of each data line, at most `vertex_count` lines.
    pub rows: Vec<Vec<String>>,
}

pub open spec fn as_ints(s: Seq<usize>) -> Seq<int> {
    s.map_values(|c: usize| c as int)
}

pub open spec fn row_views(rows: Seq<Vec<String>>) -> Seq<Seq<Seq<char>>> {
    rows.map_values(|r: Vec<String>| string_views(r@))
}

/// The data rows of a PLY text with the given layout.
pub open spec fn data_rows(ls: Seq<Seq<char>>, start: int, count: nat) -> Seq<Seq<Seq<char>>> {
    let end = if start + count <= ls.len() { start + count } else { ls.len() as int };
    ls.subrange(start, end).map_values(|l: Seq<char>| tokens(l))
}

/// Whether a data row holds a field at every column position.
pub open spec fn row_fits(row: Seq<Seq<char>>, cols: Seq<int>) -> bool {
    forall|j: int| 0 <= j < cols.len() ==> cols[j] < row.len()
}

/// Whether every data row holds a field at every column position.
pub open spec fn rows_fit(rows: Seq<Seq<Seq<char>>>, cols: Seq<int>) -> bool {
    forall|i: int| 0 <= i < rows.len() ==> row_fits(#[trigger] rows[i], cols)
}

/// Layout of an ASCII 3DGS PLY text whose data rows are all wide enough
/// for its columns; a shorter row is a malformed payload.
pub open spec fn gsplat_table_layout(text: Seq<char>) -> Result<(int, nat, Seq<int>), Seq<char>> {
    match gsplat_layout(text) {
        Err(m) => Err(m),
        Ok((start, count, cols)) => if rows_fit(data_rows(lines(text), start, count), cols) {
            Ok((start, count, cols))
        } else {
            Err("vertex row has fewer values than declared properties"@)
        },
    }
}

/// The table of the ASCII 3DGS PLY held in `bytes`: as [`gsplat_table_layout`]
/// of their text, or the UTF-8 error's text when they are not UTF-8.
pub open spec fn gsplat_bytes_layout(bytes: Seq<u8>) -> Result<(int, nat, Seq<int>), Seq<char>> {
    if valid_utf8(bytes) {
        gsplat_table_layout(decode_utf8(bytes))
    } else {
        Err(utf8_error_text(bytes))
    }
}

fn row_has_columns(row: &Vec<String>, columns: &Vec<usize>) -> (r: bool)
    ensures
        r == row_fits(string_views(row@), as_ints(columns@)),
{
    let mut j: usize = 0;
    while j < columns.len()
        invariant
            j <= columns.len(),
            forall|q: int| 0 <= q < j ==> columns@[q] < row@.len(),
        decreases columns.len() - j,
    {
        if columns[j] >= row.len() {
            assert(as_ints(columns@)[j as int] >= string_views(row@).len());
            return false;
        }
        j += 1;
    }
    true
}

fn str_lit_chars(s: &str) -> (r: Vec<char>)
    ensures
        r@ == s@,
{
    chars_of(s)
}

fn starts_with_lit(line: &Vec<char>, lit: &str) -> (r: bool)
    ensures
        r == occurs_at(line@, lit@, 0),
{
    let pat = str_lit_chars(lit);
    crate::text::occurs_at_exec(line, &pat, 0)
}

fn chars_eq_lit(s: &Vec<char>, lit: &str) -> (r: bool)
    ensures
        r == (s@ == lit@),
{
    let t = string_from_chars(s);
    str_eq(t.as_str(), lit)
}

pub open spec fn string_views(s: Seq<String>) -> Seq<Seq<char>> {
    s.map_values(|x: String| x@)
}

fn tokens_as_strings(line: &Vec<char>) -> (r: Vec<String>)
    ensures
        string_views(r@) == tokens(line@),
{
    let t = split_ws(line);
    let mut r: Vec<String> = Vec::new();
    let mut i: usize = 0;
    while i < t.len()
        invariant
            i <= t.len(),
            views_of(t@) == tokens(line@),
            string_views(r@) == views_of(t@).subrange(0, i as int),
        decreases t.len() - i,
    {
        let s = string_from_chars(&t[i]);
        proof {
            assert(string_views(r@.push(s)) =~= string_views(r@).push(s@));
            assert(views_of(t@).subrange(0, i + 1) =~= views_of(t@).subrange(0, i as int).push(t@[i as int]@));
        }
        r.push(s);
        i += 1;
    }
    proof {
        assert(views_of(t@).subrange(0, i as int) == views_of(t@));
    }
    r
}

fn find_column(props: &Vec<Vec<char>>, name: &str) -> (r: Option<usize>)
    ensures
        match r {
            Some(p) => position_of(views_of(props@), name@, 0) == Some(p as int),
            None => position_of(views_of(props@), name@, 0) is None,
        },
{
    let mut i: usize = 0;
    while i < props.len()
        invariant
            i <= props.len(),
            position_of(views_of(props@), name@, 0) == position_of(views_of(props@), name@, i as int),
        decreases props.len() - i,
    {
        if chars_eq_lit(&props[i], name) {
            return Some(i);
        }
        i += 1;
    }
    None
}

fn invalid(message: &str) -> (r: ImportError)
    ensures
        r is Invalid,
        r->Invalid_0@ == message@,
{
    ImportError::Invalid(message.to_owned())
}

fn column_name(k: usize) -> (r: (&'static str, &'static str))
    requires
        k < 14,
    ensures
        r.0@ == gsplat_columns()[k as int],
        r.1@ == gsplat_column_errors()[k as int],
{
    match k {
        0 => ("x", "missing x property"),
        1 => ("y", "missing y property"),
        2 => ("z", "missing z property"),
        3 => ("f_dc_0", "missing f_dc_0 property (not a 3DGS ply)"),
        4 => ("f_dc_1", "missing f_dc_1"),
        5 => ("f_dc_2", "missing f_dc_2"),
        6 => ("opacity", "missing opacity"),
        7 => ("scale_0", "missing scale_0"),
        8 => ("scale_1", "missing scale_1"),
        9 => ("scale_2", "missing scale_2"),
        10 => ("rot_0", "missing rot_0"),
        11 => ("rot_1", "missing rot_1"),
        12 => ("rot_2", "missing rot_2"),
        _ => ("rot_3", "missing rot_3"),
    }
}

fn scan_header(ls: &Vec<Vec<char>>) -> (r: Result<(usize, usize, Vec<Vec<char>>), ImportError>)
    requires
        ls.len() >= 1,
    ensures
        match r {
            Ok((start, count, props)) => start <= ls.len() && header_scan(views_of(ls@), 1, 0, Seq::empty()) == Ok::<
                (int, nat, Seq<Seq<char>>),
                Seq<char>,
            >((start as int, count as nat, views_of(props@))),
            Err(e) => e is Invalid && header_scan(views_of(ls@), 1, 0, Seq::empty()) == Err::<
                (int, nat, Seq<Seq<char>>),
                Seq<char>,
            >(e->Invalid_0@),
        },
{
    let ghost lv = views_of(ls@);
    let mut i: usize = 1;
    let mut count: usize = 0;
    let mut props: Vec<Vec<char>> = Vec::new();
    assert(views_of(props@) == Seq::<Seq<char>>::empty());
    while i < ls.len()
        invariant
            1 <= i <= ls.len(),
            lv == views_of(ls@),
            header_scan(lv, 1, 0, Seq::empty()) == header_scan(lv, i as int, count as nat, views_of(props@)),
        decreases ls.len() - i,
    {
        let line = &ls[i];
        assert(line@ == lv[i as int]);
        if starts_with_lit(line, "element vertex ") {
            let t = split_ws(line);
            if t.len() > 2 {
                assert(t@[2]@ == tokens(line@)[2]);
                match parse_usize_chars(&t[2]) {
                    Some(v) => {
                        count = v;
                    },
                    None => {
                        return Err(invalid("invalid vertex count"));
                    },
                }
            } else {
                return Err(invalid("invalid vertex count"));
            }
        } else if starts_with_lit(line, "property ") {
            let t = split_ws(line);
            if t.len() > 0 {
                let last = crate::text::slice_chars(&t[t.len() - 1], 0, t[t.len() - 1].len());
                proof {
                    assert(t@[t.len() - 1]@.subrange(0, t@[t.len() - 1]@.len() as int) == t@[t.len() - 1]@);
                    assert(views_of(props@.push(last)) == views_of(props@).push(tokens(line@).last()));
                }
                props.push(last);
            }
        } else if starts_with_lit(line, "element face ") || chars_eq_lit(&trim_chars(line), "end_header") {
            return Ok((i + 1, count, props));
        }
        i += 1;
    }
    Err(invalid("unexpected eof in header"))
}

/// The layout and data lines of an ASCII 3DGS PLY text.
pub fn gsplat_ply_table(text: &str) -> (r: Result<GsplatPlyTable, ImportError>)
    ensures
        match r {
            Ok(t) => gsplat_table_layout(text@) matches Ok((start, count, cols)) && count
                == t.vertex_count && cols == as_ints(t.columns@) && row_views(t.rows@) == data_rows(
                lines(text@),
                start,
                count,
            ),
            Err(e) => e is Invalid && gsplat_table_layout(text@) == Err::<
                (int, nat, Seq<int>),
                Seq<char>,
            >(e->Invalid_0@),
        },
{
    let chars = chars_of(text);
    let ls = split_lines(&chars);
    let ghost lv = views_of(ls@);
    assert(lv == lines(text@));
    if ls.len() == 0 {
        return Err(invalid("empty ply"));
    }
    if !chars_eq_lit(&trim_chars(&ls[0]), "ply") {
        return Err(invalid("missing ply header"));
    }
    let (start, count, props) = match scan_header(&ls) {
        Ok(v) => v,
        Err(e) => {
            return Err(e);
        },
    };
    if count == 0 {
        return Err(invalid("ply has zero vertices"));
    }
    let ghost pv = views_of(props@);
    let mut columns: Vec<usize> = Vec::new();
    let mut k: usize = 0;
    while k < 14
        invariant
            k <= 14,
            pv == views_of(props@),
            lv == views_of(ls@),
            lv == lines(text@),
            lv.len() > 0,
            trim(lv[0]) == "ply"@,
            start <= ls.len(),
            count > 0,
            header_scan(lv, 1, 0, Seq::empty()) == Ok::<(int, nat, Seq<Seq<char>>), Seq<char>>(
                (start as int, count as nat, pv),
            ),
            columns@.len() == k,
            column_positions(pv, 0) == match column_positions(pv, k as int) {
                Err(m) => Err(m),
                Ok(rest) => Ok(as_ints(columns@) + rest),
            },
        decreases 14 - k,
    {
        let (name, message) = column_name(k);
        assert(column_positions(pv, k as int) == match position_of(pv, gsplat_columns()[k as int], 0) {
            None => Err(gsplat_column_errors()[k as int]),
            Some(p) => match column_positions(pv, k + 1) {
                Err(m) => Err(m),
                Ok(rest) => Ok(seq![p] + rest),
            },
        });
        match find_column(&props, name) {
            Some(p) => {
                let ghost a = as_ints(columns@);
                assert(position_of(pv, gsplat_columns()[k as int], 0) == Some(p as int));
                proof {
                    match column_positions(pv, k + 1) {
                        Err(m) => {
                            assert(column_positions(pv, k as int) == Err::<Seq<int>, Seq<char>>(m));
                        },
                        Ok(rest) => {
                            assert(column_positions(pv, k as int) == Ok::<Seq<int>, Seq<char>>(seq![p as int] + rest));
                            assert(a + (seq![p as int] + rest) =~= a.push(p as int) + rest);
                        },
                    }
                }
                columns.push(p);
                assert(as_ints(columns@) =~= a.push(p as int));
            },
            None => {
                return Err(invalid(message));
            },
        }
        k += 1;
    }
    proof {
        assert(column_positions(pv, 14) == Ok::<Seq<int>, Seq<char>>(Seq::empty()));
        assert(as_ints(columns@) + Seq::<int>::empty() == columns@.map_values(
            |c: usize| c as int,
        ));
    }
    let end = if count > ls.len() - start { ls.len() } else { start + count };
    assert(lv[0] == ls@[0]@);
    assert(gsplat_layout(text@) == Ok::<(int, nat, Seq<int>), Seq<char>>(
        (start as int, count as nat, as_ints(columns@)),
    ));
    let mut rows: Vec<Vec<String>> = Vec::new();
    let mut j = start;
    while j < end
        invariant
            start <= j <= end <= ls.len(),
            end == (if start + count <= lv.len() { start + count } else { lv.len() as int }),
            lv == views_of(ls@),
            lv == lines(text@),
            gsplat_layout(text@) == Ok::<(int, nat, Seq<int>), Seq<char>>(
                (start as int, count as nat, as_ints(columns@)),
            ),
            row_views(rows@) == lv.subrange(start as int, j as int).map_values(|l: Seq<char>| tokens(l)),
            rows_fit(row_views(rows@), as_ints(columns@)),
        decreases end - j,
    {
        let row = tokens_as_strings(&ls[j]);
        if !row_has_columns(&row, &columns) {
            proof {
                let d = data_rows(lv, start as int, count as nat);
                assert(d[j - start] == tokens(lv[j as int]));
                assert(!row_fits(d[j - start], as_ints(columns@)));
            }
            return Err(invalid("vertex row has fewer values than declared properties"));
        }
        proof {
            assert(lv[j as int] == ls@[j as int]@);
            assert(row_views(rows@.push(row)) == row_views(rows@).push(tokens(lv[j as int])));
            assert(lv.subrange(start as int, j + 1).map_values(|l: Seq<char>| tokens(l)) == lv.subrange(
                start as int,
                j as int,
            ).map_values(|l: Seq<char>| tokens(l)).push(tokens(lv[j as int])));
        }
        rows.push(row);
        j += 1;
    }
    proof {
        assert(row_views(rows@) == data_rows(lv, start as int, count as nat));
    }
    Ok(GsplatPlyTable { vertex_count: count, columns, rows })
}

/// The table of an ASCII 3DGS PLY file's bytes; bytes that are not UTF-8
/// are a malformed payload whose message is the decoder's.
pub fn gsplat_ply_table_bytes(bytes: &[u8]) -> (r: Result<GsplatPlyTable, ImportError>)
    ensures
        match r {
            Ok(t) => gsplat_bytes_layout(bytes@) matches Ok((start, count, cols)) && count
                == t.vertex_count && cols == as_ints(t.columns@) && row_views(t.rows@) == data_rows(
                lines(decode_utf8(bytes@)),
                start,
                count,
            ),
            Err(e) => e is Invalid && gsplat_bytes_layout(bytes@) == Err::<
                (int, nat, Seq<int>),
                Seq<char>,
            >(e->Invalid_0@),
        },
{
    match utf8_text(bytes) {
        Ok(text) => gsplat_ply_table(text.as_str()),
        Err(e) => Err(ImportError::Invalid(e)),
    }
}

/// Parsed Gaussian splat cloud before chunking (`f32` bits).
#[derive(Debug, Clone, PartialEq)]
pub struct ParsedGaussianSplatCloud {
    /// Splat centers in object space.
    pub positions: Vec<[u32; 3]>,
    /// Unit quaternions in xyzw order.
    pub rotations: Vec<[u32; 4]>,
    /// Linear scales after activation.
    pub scales: Vec<[u32; 3]>,
    /// Opacity values in 0..1 after activation.
    pub opacities: Vec<u32>,
    /// RGB colors baked from SH degree-0 coefficients.
    pub colors: Vec<[u32; 3]>,
}

/// Spatial grid cell of a splat.
pub type Cell = (u32, u32, u32);

/// Distinct cells among the first `n`, in order of first appearance.
pub open spec fn cells_in_order(cells: Seq<Cell>, n: int) -> Seq<Cell>
    decreases n,
{
    if n <= 0 {
        Seq::empty()
    } else if cells_in_order(cells, n - 1).contains(cells[n - 1]) {
        cells_in_order(cells, n - 1)
    } else {
        cells_in_order(cells, n - 1).push(cells[n - 1])
    }
}

/// Which splats fall in cell `c`.
pub open spec fn in_cell(cells: Seq<Cell>, c: Cell) -> Seq<bool> {
    Seq::new(cells.len(), |i: int| cells[i] == c)
}

fn distinct_cells(cells: &Vec<Cell>) -> (r: Vec<Cell>)
    ensures
        r@ == cells_in_order(cells@, cells@.len() as int),
{
    let mut r: Vec<Cell> = Vec::new();
    let mut i: usize = 0;
    while i < cells.len()
        invariant
            i <= cells.len(),
            r@ == cells_in_order(cells@, i as int),
        decreases cells.len() - i,
    {
        let c = cells[i];
        let mut k: usize = 0;
        let mut found = false;
        while k < r.len()
            invariant
                k <= r.len(),
                found ==> r@.contains(c),
                !found ==> forall|j: int| 0 <= j < k ==> r@[j] != c,
            decreases r.len() - k,
        {
            if r[k].0 == c.0 && r[k].1 == c.1 && r[k].2 == c.2 {
                found = true;
            }
            k += 1;
        }
        if !found {
            r.push(c);
        }
        i += 1;
    }
    r
}

fn cell_mask(cells: &Vec<Cell>, c: Cell) -> (r: Vec<bool>)
    ensures
        r@ == in_cell(cells@, c),
{
    let mut r: Vec<bool> = Vec::new();
    let mut i: usize = 0;
    while i < cells.len()
        invariant
            i <= cells.len(),
            r@ == in_cell(cells@, c).subrange(0, i as int),
        decreases cells.len() - i,
    {
        let d = cells[i];
        r.push(d.0 == c.0 && d.1 == c.1 && d.2 == c.2);
        i += 1;
    }
    assert(in_cell(cells@, c).subrange(0, i as int) == in_cell(cells@, c));
    r
}

/// Split parsed splats into chunks, one per spatial cell: `cells[i]` is the
/// grid cell of splat `i`. Chunks come in order of first appearance of their
/// cell, and each holds the splats of its cell in the order they came.
pub fn chunk_by_cells(parsed: &ParsedGaussianSplatCloud, cells: &Vec<Cell>) -> (r: Result<
    Vec<GaussianSplatChunkPayload>,
    ImportError,
>)
    requires
        cells.len() == parsed.positions.len(),
    ensures
        match r {
            Ok(chunks) => {
                &&& parsed.positions.len() > 0
                &&& chunks.len() == cells_in_order(cells@, cells@.len() as int).len()
                &&& forall|k: int|
                    0 <= k < chunks.len() ==> {
                        let keep = in_cell(cells@, cells_in_order(cells@, cells@.len() as int)[k]);
                        &&& (#[trigger] chunks@[k]).positions@ == crate::columns::kept(
                            parsed.positions@,
                            keep,
                            keep.len() as int,
                        )
                        &&& chunks@[k].rotations@ == crate::columns::kept(
                            parsed.rotations@,
                            keep,
                            keep.len() as int,
                        )
                        &&& chunks@[k].scales@ == crate::columns::kept(parsed.scales@, keep, keep.len() as int)
                        &&& chunks@[k].opacities@ == crate::columns::kept(
                            parsed.opacities@,
                            keep,
                            keep.len() as int,
                        )
                        &&& chunks@[k].colors@ == crate::columns::kept(parsed.colors@, keep, keep.len() as int)
                    }
            },
            Err(e) => parsed.positions.len() == 0 && e is Invalid && e->Invalid_0@
                == "gaussian splat cloud has no splats"@,
        },
{
    if parsed.positions.len() == 0 {
        return Err(invalid("gaussian splat cloud has no splats"));
    }
    let keys = distinct_cells(cells);
    let mut chunks: Vec<GaussianSplatChunkPayload> = Vec::new();
    let mut k: usize = 0;
    while k < keys.len()
        invariant
            k <= keys.len(),
            keys@ == cells_in_order(cells@, cells@.len() as int),
            chunks.len() == k,
            forall|j: int|
                0 <= j < k ==> {
                    let keep = in_cell(cells@, keys@[j]);
                    &&& (#[trigger] chunks@[j]).positions@ == crate::columns::kept(
                        parsed.positions@,
                        keep,
                        keep.len() as int,
                    )
                    &&& chunks@[j].rotations@ == crate::columns::kept(parsed.rotations@, keep, keep.len() as int)
                    &&& chunks@[j].scales@ == crate::columns::kept(parsed.scales@, keep, keep.len() as int)
                    &&& chunks@[j].opacities@ == crate::columns::kept(parsed.opacities@, keep, keep.len() as int)
                    &&& chunks@[j].colors@ == crate::columns::kept(parsed.colors@, keep, keep.len() as int)
                },
        decreases keys.len() - k,
    {
        let mask = cell_mask(cells, keys[k]);
        let chunk = GaussianSplatChunkPayload {
            positions: crate::columns::filter_rows(&parsed.positions, &mask),
            rotations: crate::columns::filter_rows(&parsed.rotations, &mask),
            scales: crate::columns::filter_rows(&parsed.scales, &mask),
            opacities: crate::columns::filter_rows(&parsed.opacities, &mask),
            colors: crate::columns::filter_rows(&parsed.colors, &mask),
        };
        chunks.push(chunk);
        k += 1;
    }
    Ok(chunks)
}

/// Chunk index entry for the chunk at `index`: small chunks render every
/// splat, chunks above 8192 splats every fourth at low detail.
pub open spec fn chunk_record_spec(
    index: int,
    splat_count: int,
    bounds: ([u32; 3], [u32; 3]),
    blob: AssetId,
) -> GaussianSplatChunkRecord {
    GaussianSplatChunkRecord {
        chunk_id: index as u32,
        bounds_min: bounds.0,
        bounds_max: bounds.1,
        splat_count: splat_count as u32,
        blob_asset_id: blob,
        lod_stride: if splat_count > 8192 { 4 } else { 1 },
    }
}

/// Gaussian splat metadata for imported chunks: `chunk_bounds[i]` and
/// `blob_ids[i]` are the bounds and the blob id of chunk `i`, `bounds` the
/// overall bounds.
pub fn build_metadata(
    splat_count: usize,
    chunks: &Vec<GaussianSplatChunkPayload>,
    chunk_bounds: &Vec<([u32; 3], [u32; 3])>,
    bounds: ([u32; 3], [u32; 3]),
    blob_ids: &Vec<AssetId>,
) -> (r: GaussianSplatAssetData)
    requires
        chunk_bounds.len() == chunks.len(),
        blob_ids.len() == chunks.len(),
        chunks.len() <= u32::MAX,
        forall|i: int| 0 <= i < chunks.len() ==> (#[trigger] chunks@[i]).positions.len() <= u32::MAX,
    ensures
        r.version == 1,
        r.splat_count == splat_count as u64,
        r.bounds_min == bounds.0,
        r.bounds_max == bounds.1,
        r.sh_degree == 0,
        r.chunks.len() == chunks.len(),
        forall|i: int|
            0 <= i < chunks.len() ==> {
                &&& (#[trigger] r.chunks@[i]).chunk_id == i
                &&& r.chunks@[i].splat_count == chunks@[i].positions.len()
                &&& r.chunks@[i].lod_stride == if chunks@[i].positions.len() > 8192 {
                    4u32
                } else {
                    1u32
                }
                &&& r.chunks@[i].blob_asset_id == blob_ids@[i]
                &&& r.chunks@[i].bounds_min == chunk_bounds@[i].0
                &&& r.chunks@[i].bounds_max == chunk_bounds@[i].1
            },
        forall|i: int|
            0 <= i < chunks.len() ==> #[trigger] r.chunks@[i] == chunk_record_spec(
                i,
                chunks@[i].positions.len() as int,
                chunk_bounds@[i],
                blob_ids@[i],
            ),
{
    let mut records: Vec<GaussianSplatChunkRecord> = Vec::new();
    let mut i: usize = 0;
    while i < chunks.len()
        invariant
            i <= chunks.len(),
            chunk_bounds.len() == chunks.len(),
            blob_ids.len() == chunks.len(),
            chunks.len() <= u32::MAX,
            forall|j: int| 0 <= j < chunks.len() ==> (#[trigger] chunks@[j]).positions.len() <= u32::MAX,
            records.len() == i,
            forall|j: int|
                0 <= j < i ==> #[trigger] records@[j] == chunk_record_spec(
                    j,
                    chunks@[j].positions.len() as int,
                    chunk_bounds@[j],
                    blob_ids@[j],
                ),
        decreases chunks.len() - i,
    {
        let count = chunks[i].splat_count();
        let (lo, hi) = chunk_bounds[i];
        records.push(GaussianSplatChunkRecord {
            chunk_id: i as u32,
            bounds_min: lo,
            bounds_max: hi,
            splat_count: count as u32,
            blob_asset_id: blob_ids[i],
            lod_stride: if count > 8192 { 4 } else { 1 },
        });
        i += 1;
    }
    GaussianSplatAssetData {
        version: 1,
        splat_count: splat_count as u64,
        bounds_min: bounds.0,
        bounds_max: bounds.1,
        sh_degree: 0,
        chunks: records,
    }
}


proof fn lemma_cells_in_order(cells: Seq<Cell>, n: int)
    requires
        0 <= n <= cells.len(),
    ensures
        forall|j: int| 0 <= j < n ==> cells_in_order(cells, n).contains(#[trigger] cells[j]),
        forall|a: int, b: int|
            0 <= a < b < cells_in_order(cells, n).len() ==> cells_in_order(cells, n)[a]
                != cells_in_order(cells, n)[b],
    decreases n,
{
    if n > 0 {
        lemma_cells_in_order(cells, n - 1);
        let prev = cells_in_order(cells, n - 1);
        let cur = cells_in_order(cells, n);
        if !prev.contains(cells[n - 1]) {
            assert(cur == prev.push(cells[n - 1]));
            assert forall|j: int| 0 <= j < n implies cur.contains(#[trigger] cells[j]) by {
                if j < n - 1 {
                    let k = choose|k: int| 0 <= k < prev.len() && prev[k] == cells[j];
                    assert(cur[k] == cells[j]);
                } else {
                    assert(cur[prev.len() as int] == cells[j]);
                }
            }
            assert forall|a: int, b: int| 0 <= a < b < cur.len() implies cur[a] != cur[b] by {
                if b == prev.len() {
                    assert(cur[a] == prev[a]);
                    assert(prev.contains(prev[a]));
                }
            }
        }
    }
}

/// Whether splat `i` belongs to exactly one of the chunks of cells `cells`.
pub open spec fn in_one_chunk(cells: Seq<Cell>, i: int) -> bool {
    let order = cells_in_order(cells, cells.len() as int);
    exists|k: int|
        0 <= k < order.len() && #[trigger] in_cell(cells, order[k])[i] && forall|k2: int|
            0 <= k2 < order.len() && #[trigger] in_cell(cells, order[k2])[i] ==> k2 == k
}

/// Chunking by cells splits the splats: each splat belongs to exactly one
/// chunk, the one of its cell.
pub proof fn law_chunks_partition(cells: Seq<Cell>)
    ensures
        forall|i: int| 0 <= i < cells.len() ==> #[trigger] in_one_chunk(cells, i),
{
    let order = cells_in_order(cells, cells.len() as int);
    lemma_cells_in_order(cells, cells.len() as int);
    assert forall|i: int| 0 <= i < cells.len() implies #[trigger] in_one_chunk(cells, i) by {
        assert(order.contains(cells[i]));
        let k = choose|k: int| 0 <= k < order.len() && order[k] == cells[i];
        assert(in_cell(cells, order[k])[i]);
        assert forall|k2: int| 0 <= k2 < order.len() && #[trigger] in_cell(cells, order[k2])[i] implies k2 == k by {
            assert(order[k2] == cells[i]);
            if k2 < k {
                assert(order[k2] != order[k]);
            } else if k2 > k {
                assert(order[k] != order[k2]);
            }
        }
    }
}

/// Total number of rows of `column` over the chunks of the cells in `order`.
pub open spec fn chunk_total<T>(column: Seq<T>, cells: Seq<Cell>, order: Seq<Cell>) -> nat
    decreases order.len(),
{
    if order.len() == 0 {
        0
    } else {
        chunk_total(column, cells, order.drop_last()) + crate::columns::kept(
            column,
            in_cell(cells, order.last()),
            cells.len() as int,
        ).len()
    }
}

/// Splats among the first `n` over the cells in `order`.
spec fn count_total(cells: Seq<Cell>, order: Seq<Cell>, n: int) -> nat
    decreases order.len(),
{
    if order.len() == 0 {
        0
    } else {
        count_total(cells, order.drop_last(), n) + crate::columns::kept_count(
            in_cell(cells, order.last()),
            n,
        )
    }
}

/// How often `x` occurs in `order`.
spec fn hits(order: Seq<Cell>, x: Cell) -> nat
    decreases order.len(),
{
    if order.len() == 0 {
        0
    } else {
        hits(order.drop_last(), x) + if order.last() == x { 1nat } else { 0nat }
    }
}

proof fn lemma_hits_distinct(order: Seq<Cell>, x: Cell)
    requires
        forall|a: int, b: int| 0 <= a < b < order.len() ==> order[a] != order[b],
    ensures
        hits(order, x) == if order.contains(x) { 1nat } else { 0nat },
    decreases order.len(),
{
    if order.len() > 0 {
        let rest = order.drop_last();
        lemma_hits_distinct(rest, x);
        if order.last() == x {
            if rest.contains(x) {
                let a = choose|a: int| 0 <= a < rest.len() && rest[a] == x;
                assert(order[a] == order[order.len() - 1]);
            }
        } else if order.contains(x) {
            let a = choose|a: int| 0 <= a < order.len() && order[a] == x;
            assert(rest[a] == x);
        } else {
            assert forall|a: int| 0 <= a < rest.len() implies rest[a] != x by {
                assert(order[a] == rest[a]);
            }
        }
    }
}

proof fn lemma_count_step(cells: Seq<Cell>, order: Seq<Cell>, n: int)
    requires
        0 < n <= cells.len(),
    ensures
        count_total(cells, order, n) == count_total(cells, order, n - 1) + hits(order, cells[n - 1]),
    decreases order.len(),
{
    if order.len() > 0 {
        lemma_count_step(cells, order.drop_last(), n);
    }
}

proof fn lemma_count_zero(cells: Seq<Cell>, order: Seq<Cell>)
    ensures
        count_total(cells, order, 0) == 0,
    decreases order.len(),
{
    if order.len() > 0 {
        lemma_count_zero(cells, order.drop_last());
    }
}

proof fn lemma_count_all(cells: Seq<Cell>, order: Seq<Cell>, n: int)
    requires
        0 <= n <= cells.len(),
        forall|a: int, b: int| 0 <= a < b < order.len() ==> order[a] != order[b],
        forall|j: int| 0 <= j < n ==> order.contains(#[trigger] cells[j]),
    ensures
        count_total(cells, order, n) == n,
    decreases n,
{
    if n == 0 {
        lemma_count_zero(cells, order);
    } else {
        lemma_count_all(cells, order, n - 1);
        lemma_count_step(cells, order, n);
        assert(order.contains(cells[n - 1]));
        lemma_hits_distinct(order, cells[n - 1]);
    }
}

proof fn lemma_chunk_total<T>(column: Seq<T>, cells: Seq<Cell>, order: Seq<Cell>)
    requires
        column.len() == cells.len(),
    ensures
        chunk_total(column, cells, order) == count_total(cells, order, cells.len() as int),
    decreases order.len(),
{
    if order.len() > 0 {
        lemma_chunk_total(column, cells, order.drop_last());
        crate::columns::lemma_kept_len(column, in_cell(cells, order.last()), cells.len() as int);
    }
}

/// Chunking by cells keeps every splat once: over the chunks of
/// [`chunk_by_cells`], the rows of any column add up to the column's rows.
pub proof fn law_chunk_sizes_sum<T>(column: Seq<T>, cells: Seq<Cell>)
    requires
        column.len() == cells.len(),
    ensures
        chunk_total(column, cells, cells_in_order(cells, cells.len() as int)) == column.len(),
{
    let order = cells_in_order(cells, cells.len() as int);
    lemma_cells_in_order(cells, cells.len() as int);
    lemma_chunk_total(column, cells, order);
    lemma_count_all(cells, order, cells.len() as int);
}


/// The 3DGS PLY header up to the vertex count.
spec fn exported_header_prefix() -> Seq<char> {
    "ply\nformat ascii 1.0\n"@ + "element vertex "@
}

/// The 3DGS PLY header after the vertex count, up to `end_header`.
spec fn exported_header_properties() -> Seq<char> {
    "\n"@ + "property float x\nproperty float y\nproperty float z\n"@
        + "property float f_dc_0\nproperty float f_dc_1\nproperty float f_dc_2\n"@ + "property float opacity\n"@
        + "property float scale_0\nproperty float scale_1\nproperty float scale_2\n"@
        + "property float rot_0\nproperty float rot_1\nproperty float rot_2\nproperty float rot_3\n"@
}

proof fn lemma_decimal_bytes(n: nat)
    ensures
        forall|j: int| 0 <= j < decimal(n).len() ==> 48 <= (#[trigger] decimal(n)[j]) as u8 <= 57,
    decreases n,
{
    if n >= 10 {
        lemma_decimal_bytes(n / 10);
        let d = decimal(n / 10);
        assert forall|j: int| 0 <= j < decimal(n).len() implies 48 <= (#[trigger] decimal(n)[j]) as u8 <= 57 by {
            if j < d.len() {
                assert(decimal(n)[j] == d[j]);
            }
        }
    }
}

proof fn lemma_ascii_concat(a: Seq<char>, b: Seq<char>)
    ensures
        ascii_of(a + b) == ascii_of(a) + ascii_of(b),
{
    assert(ascii_of(a + b) =~= ascii_of(a) + ascii_of(b));
}

/// The header that the splat export writes for any number of splats, and
/// whatever body follows it, is detected as a 3D Gaussian splat PLY:
/// [`looks_like_gsplat_ply`] holds of every exported snapshot.
pub proof fn law_exported_gsplat_header_detected(n: nat, body: Seq<u8>)
    ensures
        is_gsplat_header(ascii_of(crate::ply_export::gsplat_ply_header(n)) + body),
{
    reveal_strlit("ply\nformat ascii 1.0\n");
    reveal_strlit("element vertex ");
    reveal_strlit("\n");
    reveal_strlit("property float x\nproperty float y\nproperty float z\n");
    reveal_strlit("property float f_dc_0\nproperty float f_dc_1\nproperty float f_dc_2\n");
    reveal_strlit("property float opacity\n");
    reveal_strlit("property float scale_0\nproperty float scale_1\nproperty float scale_2\n");
    reveal_strlit("property float rot_0\nproperty float rot_1\nproperty float rot_2\nproperty float rot_3\n");
    reveal_strlit("end_header\n");
    reveal_strlit("end_header");
    reveal_strlit("f_dc_0");
    reveal_strlit("opacity");
    reveal_strlit("scale_0");
    reveal_strlit("rot_0");
    let pre = exported_header_prefix();
    let d = decimal(n);
    let props = exported_header_properties();
    let m = "end_header\n"@;
    let t = crate::ply_export::gsplat_ply_header(n);
    assert(t =~= pre + d + props + m);
    lemma_ascii_concat(pre, d);
    lemma_ascii_concat(pre + d, props);
    lemma_ascii_concat(pre + d + props, m);
    let ap = ascii_of(pre);
    let ad = ascii_of(d);
    let aq = ascii_of(props);
    let am = ascii_of(m);
    assert(ascii_of(t) == ap + ad + aq + am);
    let b = ascii_of(t) + body;
    assert(ap.len() == 36);
    assert(aq.len() == 294);
    let p: int = 36 + d.len() as int + 294;
    let e = ascii_of("end_header"@);
    assert(b.subrange(p, p + 10) =~= e);
    assert(occurs_at(b, e, p));
    lemma_decimal_bytes(n);
    assert(forall|j: int| 0 <= j < ap.len() ==> ap[j] != 0x68u8);
    assert(forall|j: int| 0 <= j < aq.len() ==> aq[j] != 0x68u8);
    assert(forall|j: int| 0 <= j < 4 ==> am[j] != 0x68u8);
    assert(forall|j: int| 0 <= j < ad.len() ==> ad[j] != 0x68u8);
    assert forall|q: int| 0 <= q < p implies !occurs_at(b, e, q) by {
        if occurs_at(b, e, q) {
            assert(b.subrange(q, q + 10)[4] == e[4]);
            assert(b[q + 4] == 0x68u8);
            let j = q + 4;
            if j < 36 {
                assert(b[j] == ap[j]);
            } else if j < 36 + d.len() {
                assert(b[j] == ad[j - 36]);
            } else if j < p {
                assert(b[j] == aq[j - 36 - d.len()]);
            } else {
                assert(b[j] == am[j - p]);
            }
        }
    }
    lemma_find_spec(b, e, 0);
    assert(find_spec(b, e, 0) == Some(p));
    let h = gsplat_header_region(b);
    assert(h == b.subrange(0, p + 10));
    let base: int = 36 + d.len() as int;
    assert(h.subrange(base + 67, base + 73) =~= ascii_of("f_dc_0"@));
    assert(occurs_at(h, ascii_of("f_dc_0"@), base + 67));
    assert(h.subrange(base + 133, base + 140) =~= ascii_of("opacity"@));
    assert(occurs_at(h, ascii_of("opacity"@), base + 133));
    assert(h.subrange(base + 156, base + 163) =~= ascii_of("scale_0"@));
    assert(occurs_at(h, ascii_of("scale_0"@), base + 156));
    assert(h.subrange(base + 225, base + 230) =~= ascii_of("rot_0"@));
    assert(occurs_at(h, ascii_of("rot_0"@), base + 225));
}


/// The record of an imported chunk: its index as id, its splat count, its
/// bounds and blob, and a level-of-detail stride of 4 for a chunk of more
/// than 8192 splats and 1 (every splat drawn) otherwise.
pub proof fn law_chunk_record_fields(index: int, splat_count: int, bounds: ([u32; 3], [u32; 3]), blob: AssetId)
    requires
        0 <= index <= u32::MAX,
        0 <= splat_count <= u32::MAX,
    ensures
        chunk_record_spec(index, splat_count, bounds, blob).chunk_id == index,
        chunk_record_spec(index, splat_count, bounds, blob).splat_count == splat_count,
        chunk_record_spec(index, splat_count, bounds, blob).bounds_min == bounds.0,
        chunk_record_spec(index, splat_count, bounds, blob).bounds_max == bounds.1,
        chunk_record_spec(index, splat_count, bounds, blob).blob_asset_id == blob,
        splat_count > 8192 ==> chunk_record_spec(index, splat_count, bounds, blob).lod_stride == 4,
        splat_count <= 8192 ==> chunk_record_spec(index, splat_count, bounds, blob).lod_stride == 1,
{
}

} // verus!
