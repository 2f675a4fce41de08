//! Content hashes of asset blobs and their hex form.
use vstd::prelude::*;

use crate::text::push_char;

verus! {

/// BLAKE3 digest of a byte sequence.
pub uninterp spec fn blake3_digest(data: Seq<u8>) -> Seq<u8>;

/// `blake3::hash`: the 32-byte BLAKE3 digest of `bytes`. The digest itself is
/// not restated here; the result is the named digest of the input.
#[verifier::external_body]
fn blake3_hash(bytes: &[u8]) -> (r: [u8; 32])
    ensures
        r@ == blake3_digest(bytes@),
{
    *blake3::hash(bytes).as_bytes()
}

/// Immutable content hash for asset blobs.
#[derive(Clone, Copy, PartialEq, Eq, PartialOrd, Ord, Hash, Debug)]
pub struct ContentHash(pub [u8; 32]);

/// Lowercase hex digit of a value below 16.
pub open spec fn hex_digit(v: int) -> char {
    if v < 10 {
        ((v + 48) as u8) as char
    } else {
        ((v + 87) as u8) as char
    }
}

/// Two lowercase hex digits per byte, most significant nibble first.
pub open spec fn hex_of(bytes: Seq<u8>) -> Seq<char>
    decreases bytes.len(),
{
    if bytes.len() == 0 {
        Seq::empty()
    } else {
        hex_of(bytes.drop_last()) + seq![hex_digit(bytes.last() as int / 16), hex_digit(bytes.last() as int % 16)]
    }
}

/// `char::is_ascii_hexdigit`.
pub open spec fn is_hex_char(c: char) -> bool {
    ('0' <= c && c <= '9') || ('a' <= c && c <= 'f') || ('A' <= c && c <= 'F')
}

/// Value of a hex digit.
pub open spec fn hex_value(c: char) -> int {
    if '0' <= c && c <= '9' {
        c as u32 - 48
    } else if 'a' <= c && c <= 'f' {
        c as u32 - 87
    } else {
        c as u32 - 55
    }
}

/// The bytes spelled by a string of 64 hex digits, two digits per byte.
pub open spec fn hex_bytes(s: Seq<char>) -> Seq<u8> {
    Seq::new(32, |i: int| (hex_value(s[2 * i]) * 16 + hex_value(s[2 * i + 1])) as u8)
}

/// What `from_hex` accepts: exactly 64 hex digits (either case).
pub open spec fn is_hash_hex(s: Seq<char>) -> bool {
    s.len() == 64 && forall|i: int| 0 <= i < s.len() ==> is_hex_char(#[trigger] s[i])
}

pub proof fn lemma_hex_len(bytes: Seq<u8>)
    ensures
        hex_of(bytes).len() == 2 * bytes.len(),
{
    lemma_hex_of_len(bytes);
}

proof fn lemma_hex_of_len(bytes: Seq<u8>)
    ensures
        hex_of(bytes).len() == 2 * bytes.len(),
    decreases bytes.len(),
{
    if bytes.len() > 0 {
        lemma_hex_of_len(bytes.drop_last());
    }
}

proof fn lemma_hex_of_index(bytes: Seq<u8>, i: int)
    requires
        0 <= i < bytes.len(),
    ensures
        hex_of(bytes).len() == 2 * bytes.len(),
        hex_of(bytes)[2 * i] == hex_digit(bytes[i] as int / 16),
        hex_of(bytes)[2 * i + 1] == hex_digit(bytes[i] as int % 16),
    decreases bytes.len(),
{
    lemma_hex_of_len(bytes);
    lemma_hex_of_len(bytes.drop_last());
    if i < bytes.len() - 1 {
        lemma_hex_of_index(bytes.drop_last(), i);
    }
}

fn hex_digit_exec(v: u8) -> (c: char)
    requires
        v < 16,
    ensures
        c == hex_digit(v as int),
{
    if v < 10 {
        (v + 48) as char
    } else {
        (v + 87) as char
    }
}

fn hex_value_exec(c: char) -> (v: u8)
    requires
        is_hex_char(c),
    ensures
        v as int == hex_value(c),
        v < 16,
{
    if '0' <= c && c <= '9' {
        ((c as u32) - 48) as u8
    } else if 'a' <= c && c <= 'f' {
        ((c as u32) - 87) as u8
    } else {
        ((c as u32) - 55) as u8
    }
}

impl ContentHash {
    /// Hash raw bytes with BLAKE3.
    pub fn of_bytes(bytes: &[u8]) -> (r: Self)
        ensures
            r.0@ == blake3_digest(bytes@),
    {
        ContentHash(blake3_hash(bytes))
    }

    /// Returns the canonical lowercase hex representation.
    pub fn to_hex(self) -> (r: String)
        ensures
            r@ == hex_of(self.0@),
    {
        let mut r = String::new();
        let mut i: usize = 0;
        while i < 32
            invariant
                i <= 32,
                r@ == hex_of(self.0@.take(i as int)),
            decreases 32 - i,
        {
            let b = self.0[i];
            push_char(&mut r, hex_digit_exec(b / 16));
            push_char(&mut r, hex_digit_exec(b % 16));
            assert(self.0@.take(i + 1).drop_last() == self.0@.take(i as int));
            i += 1;
        }
        assert(self.0@.take(32) == self.0@);
        r
    }

    /// Parse a 64-digit hex hash.
    pub fn from_hex(value: &str) -> (r: Option<Self>)
        ensures
            match r {
                Some(h) => is_hash_hex(value@) && h.0@ == hex_bytes(value@),
                None => !is_hash_hex(value@),
            },
    {
        let n = value.unicode_len();
        if n != 64 {
            return None;
        }
        let mut i: usize = 0;
        while i < 64
            invariant
                n == value@.len(),
                n == 64,
                i <= 64,
                forall|j: int| 0 <= j < i ==> is_hex_char(#[trigger] value@[j]),
            decreases 64 - i,
        {
            if !is_hex_char_exec(value.get_char(i)) {
                return None;
            }
            i += 1;
        }
        let mut bytes = [0u8; 32];
        let mut k: usize = 0;
        while k < 32
            invariant
                is_hash_hex(value@),
                k <= 32,
                forall|j: int| 0 <= j < k ==> bytes@[j] == #[trigger] hex_bytes(value@)[j],
            decreases 32 - k,
        {
            let hi = hex_value_exec(value.get_char(2 * k));
            let lo = hex_value_exec(value.get_char(2 * k + 1));
            bytes[k] = hi * 16 + lo;
            k += 1;
        }
        assert(bytes@ == hex_bytes(value@));
        Some(ContentHash(bytes))
    }

    /// Returns raw hash bytes.
    pub fn as_bytes(self) -> (r: [u8; 32])
        ensures
            r == self.0,
    {
        self.0
    }
}

fn is_hex_char_exec(c: char) -> (r: bool)
    ensures
        r == is_hex_char(c),
{
    ('0' <= c && c <= '9') || ('a' <= c && c <= 'f') || ('A' <= c && c <= 'F')
}

/// Parsing the hex form of a hash gives the hash back.
pub proof fn lemma_hex_round_trip(h: ContentHash)
    ensures
        is_hash_hex(hex_of(h.0@)),
        hex_bytes(hex_of(h.0@)) == h.0@,
{
    let s = hex_of(h.0@);
    lemma_hex_of_len(h.0@);
    assert forall|i: int| 0 <= i < s.len() implies is_hex_char(#[trigger] s[i]) by {
        let j = i / 2;
        lemma_hex_of_index(h.0@, j);
        if i % 2 == 0 {
            assert(i == 2 * j);
        } else {
            assert(i == 2 * j + 1);
        }
    }
    assert forall|j: int| 0 <= j < 32 implies #[trigger] hex_bytes(s)[j] == h.0@[j] by {
        lemma_hex_of_index(h.0@, j);
    }
    assert(hex_bytes(s) =~= h.0@);
}

/// A lowercase hex digit.
pub open spec fn is_lower_hex(c: char) -> bool {
    ('0' <= c && c <= '9') || ('a' <= c && c <= 'f')
}

proof fn lemma_digit_of_value(c: char)
    requires
        is_lower_hex(c),
    ensures
        0 <= hex_value(c) < 16,
        hex_digit(hex_value(c)) == c,
{
}

proof fn lemma_digit_is_lower(v: int)
    requires
        0 <= v < 16,
    ensures
        is_lower_hex(hex_digit(v)),
        hex_value(hex_digit(v)) == v,
{
}

/// [`ContentHash::to_hex`] writes canonical lowercase hex: two characters
/// per byte, each a lowercase hex digit, and characters `2i` and `2i + 1`
/// are the high and low nibble of byte `i`, in byte order.
pub proof fn law_hex_digits(bytes: Seq<u8>)
    ensures
        hex_of(bytes).len() == 2 * bytes.len(),
        forall|i: int| 0 <= i < hex_of(bytes).len() ==> is_lower_hex(#[trigger] hex_of(bytes)[i]),
        forall|i: int|
            0 <= i < bytes.len() ==> hex_of(bytes)[2 * i] == hex_digit(#[trigger] bytes[i] as int / 16)
                && hex_of(bytes)[2 * i + 1] == hex_digit(bytes[i] as int % 16) && hex_value(hex_of(bytes)[2 * i])
                * 16 + hex_value(hex_of(bytes)[2 * i + 1]) == bytes[i],
{
    lemma_hex_of_len(bytes);
    assert forall|i: int| 0 <= i < hex_of(bytes).len() implies is_lower_hex(#[trigger] hex_of(bytes)[i]) by {
        let j = i / 2;
        lemma_hex_of_index(bytes, j);
        lemma_digit_is_lower(bytes[j] as int / 16);
        lemma_digit_is_lower(bytes[j] as int % 16);
        if i % 2 == 0 {
            assert(i == 2 * j);
        } else {
            assert(i == 2 * j + 1);
        }
    }
    assert forall|i: int| 0 <= i < bytes.len() implies hex_of(bytes)[2 * i] == hex_digit(
        #[trigger] bytes[i] as int / 16,
    ) && hex_of(bytes)[2 * i + 1] == hex_digit(bytes[i] as int % 16) && hex_value(hex_of(bytes)[2 * i]) * 16
        + hex_value(hex_of(bytes)[2 * i + 1]) == bytes[i] by {
        lemma_hex_of_index(bytes, i);
        lemma_digit_is_lower(bytes[i] as int / 16);
        lemma_digit_is_lower(bytes[i] as int % 16);
    }
}

/// Formatting the hash parsed from 64 lowercase hex digits gives the same
/// text back: [`ContentHash::from_hex`] then [`ContentHash::to_hex`] is the
/// identity on canonical text.
pub proof fn law_hex_text_round_trip(s: Seq<char>)
    requires
        s.len() == 64,
        forall|i: int| 0 <= i < s.len() ==> is_lower_hex(#[trigger] s[i]),
    ensures
        is_hash_hex(s),
        hex_of(hex_bytes(s)) == s,
{
    let b = hex_bytes(s);
    lemma_hex_of_len(b);
    assert forall|i: int| 0 <= i < s.len() implies is_hex_char(#[trigger] s[i]) by {}
    assert forall|i: int| 0 <= i < 64 implies #[trigger] hex_of(b)[i] == s[i] by {
        let j = i / 2;
        lemma_hex_of_index(b, j);
        lemma_digit_of_value(s[2 * j]);
        lemma_digit_of_value(s[2 * j + 1]);
        let hi = hex_value(s[2 * j]);
        let lo = hex_value(s[2 * j + 1]);
        assert((hi * 16 + lo) / 16 == hi && (hi * 16 + lo) % 16 == lo) by (nonlinear_arith)
            requires
                0 <= hi < 16,
                0 <= lo < 16,
        ;
        assert(b[j] as int == hi * 16 + lo);
        if i % 2 == 0 {
            assert(i == 2 * j);
        } else {
            assert(i == 2 * j + 1);
        }
    }
    assert(hex_of(b) =~= s);
}

} // verus!
