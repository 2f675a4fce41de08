//! USD (`.usda`) text helpers: prim names and integer arrays.
use vstd::prelude::*;

use crate::text::{
    chars_of, decimal, decimal_string, is_digit, join, join_strings, push_char, push_str, str_eq,
    string_views, lemma_string_views_push,
};

verus! {

pub open spec fn is_ascii_alnum(c: char) -> bool {
    ('0' <= c && c <= '9') || ('a' <= c && c <= 'z') || ('A' <= c && c <= 'Z')
}

/// A label character as it may stand in a prim name.
pub open spec fn prim_char(c: char) -> char {
    if is_ascii_alnum(c) || c == '_' {
        c
    } else {
        '_'
    }
}

/// A valid USD prim name for `label`: characters other than ASCII letters,
/// digits and `_` become `_`; an empty name becomes `Prim`; a name starting
/// with a digit gets a leading `_`.
pub open spec fn sanitized(label: Seq<char>) -> Seq<char> {
    let mapped = label.map_values(|c: char| prim_char(c));
    let s = if mapped.len() == 0 {
        "Prim"@
    } else {
        mapped
    };
    if is_digit(s[0]) {
        seq!['_'] + s
    } else {
        s
    }
}

/// A valid USD prim name for `label`.
pub fn sanitize_prim_name(label: &str) -> (r: String)
    ensures
        r@ == sanitized(label@),
{
    let c = chars_of(label);
    let mut mapped = String::new();
    let mut i: usize = 0;
    while i < c.len()
        invariant
            i <= c.len(),
            c@ == label@,
            mapped@ == label@.subrange(0, i as int).map_values(|c: char| prim_char(c)),
        decreases c.len() - i,
    {
        let ch = c[i];
        let keep = ('0' <= ch && ch <= '9') || ('a' <= ch && ch <= 'z') || ('A' <= ch && ch <= 'Z')
            || ch == '_';
        push_char(&mut mapped, if keep { ch } else { '_' });
        assert(label@.subrange(0, i + 1).map_values(|c: char| prim_char(c)) =~= label@.subrange(
            0,
            i as int,
        ).map_values(|c: char| prim_char(c)).push(prim_char(ch)));
        i += 1;
    }
    assert(label@.subrange(0, c.len() as int) == label@);
    let s = if c.len() == 0 {
        proof {
            reveal_strlit("Prim");
        }
        "Prim".to_owned()
    } else {
        mapped
    };
    let sc = chars_of(s.as_str());
    proof {
        if c.len() == 0 {
            reveal_strlit("Prim");
        }
    }
    if '0' <= sc[0] && sc[0] <= '9' {
        let mut r = String::new();
        push_char(&mut r, '_');
        push_str(&mut r, s.as_str());
        assert(r@ =~= seq!['_'] + s@);
        r
    } else {
        s
    }
}

/// Candidate `k` (from 1) for a unique prim name: the base itself, then
/// `base_2`, `base_3`, ...
pub open spec fn suffixed(base: Seq<char>, k: nat) -> Seq<char> {
    if k <= 1 {
        base
    } else {
        base + "_"@ + decimal(k)
    }
}

/// The candidates before candidate `n`.
pub open spec fn candidates(base: Seq<char>, n: nat) -> Set<Seq<char>>
    decreases n,
{
    if n <= 1 {
        Set::empty()
    } else {
        candidates(base, (n - 1) as nat).insert(suffixed(base, (n - 1) as nat))
    }
}

proof fn lemma_decimal_len(n: nat)
    ensures
        decimal(n).len() >= 1,
        n >= 10 ==> decimal(n).len() >= 2,
    decreases n,
{
    if n >= 10 {
        lemma_decimal_len(n / 10);
    }
}

proof fn lemma_digit_char(d: nat)
    requires
        d < 10,
    ensures
        crate::text::digit_value(crate::text::digit_char(d)) == d,
{
}

proof fn lemma_decimal_injective(a: nat, b: nat)
    requires
        decimal(a) == decimal(b),
    ensures
        a == b,
    decreases a,
{
    lemma_decimal_len(a);
    lemma_decimal_len(b);
    let da = decimal(a);
    let db = decimal(b);
    if a < 10 && b < 10 {
        assert(da[0] == crate::text::digit_char(a));
        assert(db[0] == crate::text::digit_char(b));
        lemma_digit_char(a);
        lemma_digit_char(b);
    } else if a >= 10 && b >= 10 {
        assert(da == decimal(a / 10).push(crate::text::digit_char(a % 10)));
        assert(db == decimal(b / 10).push(crate::text::digit_char(b % 10)));
        assert(decimal(a / 10) =~= da.drop_last());
        assert(decimal(b / 10) =~= db.drop_last());
        lemma_decimal_injective(a / 10, b / 10);
        assert(da.last() == crate::text::digit_char(a % 10));
        assert(db.last() == crate::text::digit_char(b % 10));
        lemma_digit_char(a % 10);
        lemma_digit_char(b % 10);
    } else {
        assert(da.len() == db.len());
    }
}

proof fn lemma_suffixed_distinct(base: Seq<char>, j: nat, k: nat)
    requires
        1 <= j,
        1 <= k,
        suffixed(base, j) == suffixed(base, k),
    ensures
        j == k,
{
    reveal_strlit("_");
    if j >= 2 && k >= 2 {
        let sj = suffixed(base, j);
        let sk = suffixed(base, k);
        assert(decimal(j) =~= sj.subrange(base.len() + 1int, sj.len() as int));
        assert(decimal(k) =~= sk.subrange(base.len() + 1int, sk.len() as int));
        lemma_decimal_injective(j, k);
    } else if j >= 2 {
        lemma_decimal_len(j);
        assert(suffixed(base, j).len() > base.len());
    } else if k >= 2 {
        lemma_decimal_len(k);
        assert(suffixed(base, k).len() > base.len());
    }
}

proof fn lemma_candidates(base: Seq<char>, n: nat)
    ensures
        candidates(base, n).finite(),
        n >= 1 ==> candidates(base, n).len() == n - 1,
        forall|x: Seq<char>|
            #[trigger] candidates(base, n).contains(x) ==> exists|j: nat|
                1 <= j < n && x == suffixed(base, j),
    decreases n,
{
    if n > 1 {
        let m = (n - 1) as nat;
        lemma_candidates(base, m);
        let c = suffixed(base, m);
        if candidates(base, m).contains(c) {
            let j = choose|j: nat| 1 <= j < m && c == suffixed(base, j);
            lemma_suffixed_distinct(base, j, m);
        }
        assert forall|x: Seq<char>| #[trigger] candidates(base, n).contains(x) implies exists|j: nat|
            1 <= j < n && x == suffixed(base, j) by {
            if x != c {
                assert(candidates(base, m).contains(x));
            }
        }
    }
}

proof fn lemma_free_from(names: Set<Seq<char>>, base: Seq<char>, k: nat)
    requires
        names.finite(),
        k >= 1,
        forall|j: nat| 1 <= j < k ==> #[trigger] names.contains(suffixed(base, j)),
    ensures
        exists|m: nat|
            m >= 1 && !names.contains(suffixed(base, m)) && forall|j: nat|
                1 <= j < m ==> #[trigger] names.contains(suffixed(base, j)),
    decreases names.len() + 1 - k,
{
    lemma_candidates(base, k);
    assert(candidates(base, k).subset_of(names)) by {
        assert forall|x: Seq<char>| #[trigger] candidates(base, k).contains(x) implies names.contains(x) by {
            let j = choose|j: nat| 1 <= j < k && x == suffixed(base, j);
        }
    }
    vstd::set_lib::lemma_len_subset(candidates(base, k), names);
    if !names.contains(suffixed(base, k)) {
        assert(k >= 1 && !names.contains(suffixed(base, k)));
    } else {
        let n = (k + 1) as nat;
        lemma_candidates(base, n);
        assert(candidates(base, n) =~= candidates(base, k).insert(suffixed(base, k)));
        assert(candidates(base, n).subset_of(names));
        vstd::set_lib::lemma_len_subset(candidates(base, n), names);
        assert forall|j: nat| 1 <= j < n implies #[trigger] names.contains(suffixed(base, j)) by {
            if j < k {
                assert(names.contains(suffixed(base, j)));
            }
        }
        lemma_free_from(names, base, n);
    }
}

/// While finitely many names are taken, some candidate name for `base` is
/// free, and so is a first one.
pub proof fn lemma_free_suffix_exists(names: Set<Seq<char>>, base: Seq<char>)
    requires
        names.finite(),
    ensures
        exists|m: nat|
            m >= 1 && !names.contains(suffixed(base, m)) && forall|j: nat|
                1 <= j < m ==> #[trigger] names.contains(suffixed(base, j)),
{
    lemma_free_from(names, base, 1);
}

/// Prim names already handed out.
#[derive(Debug, Default)]
pub struct NameRegistry {
    used: Vec<String>,
}

impl NameRegistry {
    /// The names handed out so far.
    pub closed spec fn names(self) -> Set<Seq<char>> {
        string_views(self.used@).to_set()
    }

    /// The set of names handed out is finite.
    pub proof fn lemma_names_finite(&self)
        ensures
            self.names().finite(),
    {
        vstd::seq_lib::seq_to_set_is_finite(string_views(self.used@));
    }

    /// An empty registry.
    pub fn new() -> (r: Self)
        ensures
            r.names() == Set::<Seq<char>>::empty(),
    {
        let r = NameRegistry { used: Vec::new() };
        assert(string_views(r.used@) =~= Seq::<Seq<char>>::empty());
        assert(r.names() =~= Set::<Seq<char>>::empty());
        r
    }

    fn holds(&self, name: &String) -> (r: bool)
        ensures
            r == self.names().contains(name@),
    {
        let mut i: usize = 0;
        while i < self.used.len()
            invariant
                i <= self.used.len(),
                forall|j: int| 0 <= j < i ==> (#[trigger] self.used@[j])@ != name@,
            decreases self.used.len() - i,
        {
            if str_eq(self.used[i].as_str(), name.as_str()) {
                assert(string_views(self.used@)[i as int] == name@);
                return true;
            }
            i += 1;
        }
        proof {
            if self.names().contains(name@) {
                let j = choose|j: int|
                    0 <= j < string_views(self.used@).len() && string_views(self.used@)[j] == name@;
                assert(self.used@[j]@ == name@);
            }
        }
        false
    }

    /// A prim name for `label` not handed out before: its sanitized form, or
    /// that form with the first free suffix `_2`, `_3`, ...; the name is
    /// recorded as handed out.
    pub fn unique(&mut self, label: String) -> (r: String)
        requires
            old(self).names().len() + 3 < usize::MAX,
        ensures
            !old(self).names().contains(r@),
            exists|k: nat|
                k >= 1 && r@ == suffixed(sanitized(label@), k) && forall|j: nat|
                    1 <= j < k ==> #[trigger] old(self).names().contains(suffixed(sanitized(label@), j)),
            final(self).names() == old(self).names().insert(r@),
    {
        let base = sanitize_prim_name(label.as_str());
        let ghost b = base@;
        let ghost used = self.names();
        proof {
            string_views(self.used@).lemma_cardinality_of_set();
        }
        let mut candidate = base.clone();
        let mut suffix: usize = 2;
        while self.holds(&candidate)
            invariant
                2 <= suffix,
                used == self.names(),
                used.finite(),
                used.len() + 3 < usize::MAX,
                b == sanitized(label@),
                b == base@,
                candidate@ == suffixed(b, (suffix - 1) as nat),
                candidates(b, (suffix - 1) as nat).subset_of(used),
                suffix - 2 <= used.len(),
            decreases used.len() + 2 - suffix,
        {
            proof {
                let n = suffix as nat;
                assert(candidates(b, n) =~= candidates(b, (n - 1) as nat).insert(suffixed(b, (n - 1) as nat)));
                lemma_candidates(b, n);
                vstd::set_lib::lemma_len_subset(candidates(b, n), used);
            }
            let d = decimal_string(suffix as u64);
            let mut next = base.clone();
            push_str(&mut next, "_");
            push_str(&mut next, d.as_str());
            assert(next@ == suffixed(b, suffix as nat));
            candidate = next;
            suffix += 1;
        }
        proof {
            let k = (suffix - 1) as nat;
            assert forall|j: nat| 1 <= j < k implies #[trigger] used.contains(suffixed(b, j)) by {
                lemma_candidates_contain(b, k, j);
            }
        }
        let ghost before = self.used@;
        self.used.push(candidate.clone());
        proof {
            lemma_string_views_push(before, candidate);
            let sv = string_views(before);
            assert(string_views(self.used@) == sv.push(candidate@));
            assert forall|x: Seq<char>| #[trigger] sv.push(candidate@).to_set().contains(x) == sv.to_set().insert(candidate@).contains(x) by {
                if sv.push(candidate@).contains(x) && x != candidate@ {
                    let j = choose|j: int| 0 <= j < sv.push(candidate@).len() && sv.push(candidate@)[j] == x;
                    assert(sv[j] == x);
                }
                if sv.contains(x) {
                    let j = choose|j: int| 0 <= j < sv.len() && sv[j] == x;
                    assert(sv.push(candidate@)[j] == x);
                }
                if x == candidate@ {
                    assert(sv.push(candidate@)[sv.len() as int] == x);
                }
            }
            assert(string_views(self.used@).to_set() =~= sv.to_set().insert(candidate@));
        }
        candidate
    }
}

proof fn lemma_candidates_contain(base: Seq<char>, n: nat, j: nat)
    requires
        1 <= j < n,
    ensures
        candidates(base, n).contains(suffixed(base, j)),
    decreases n,
{
    if j < n - 1 {
        lemma_candidates_contain(base, (n - 1) as nat, j);
    }
}

/// A USD integer array: `[a, b, c]`.
pub open spec fn usda_int_array(values: Seq<u32>) -> Seq<char> {
    "["@ + join(Seq::new(values.len(), |i: int| decimal(values[i] as nat)), ", "@) + "]"@
}

/// A USD integer array: `[a, b, c]`.
pub fn format_usda_int_array(values: &[u32]) -> (r: String)
    ensures
        r@ == usda_int_array(values@),
{
    let ghost want = Seq::new(values@.len(), |i: int| decimal(values@[i] as nat));
    let mut entries: Vec<String> = Vec::new();
    let mut i: usize = 0;
    while i < values.len()
        invariant
            i <= values.len(),
            want == Seq::new(values@.len(), |i: int| decimal(values@[i] as nat)),
            string_views(entries@) == want.take(i as int),
        decreases values.len() - i,
    {
        let d = decimal_string(values[i] as u64);
        let ghost before = entries@;
        entries.push(d);
        proof {
            lemma_string_views_push(before, d);
            assert(want.take(i + 1) =~= want.take(i as int).push(want[i as int]));
        }
        i += 1;
    }
    assert(want.take(i as int) == want);
    let mut r = "[".to_owned();
    let joined = join_strings(&entries, ", ");
    push_str(&mut r, joined.as_str());
    push_str(&mut r, "]");
    r
}

} // verus!
