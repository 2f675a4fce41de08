//! Binary glTF (GLB) container layout.
use vstd::prelude::*;

verus! {

/// Little-endian bytes of a 32-bit value.
pub open spec fn le32(v: u32) -> Seq<u8> {
    seq![(v % 256) as u8, ((v / 256) % 256) as u8, ((v / 65536) % 256) as u8, (v / 16777216) as u8]
}

/// `n` copies of `b`.
pub open spec fn fill(b: u8, n: nat) -> Seq<u8> {
    Seq::new(n, |i: int| b)
}

/// The bytes needed to bring a length of `n` to a multiple of 4.
pub open spec fn pad4(n: nat) -> nat {
    if n % 4 == 0 {
        0
    } else {
        (4 - n % 4) as nat
    }
}

/// `bytes` padded with `b` to a multiple of 4 bytes.
pub open spec fn padded(bytes: Seq<u8>, b: u8) -> Seq<u8> {
    bytes + fill(b, pad4(bytes.len()))
}

pub(crate) fn push_le32(out: &mut Vec<u8>, v: u32)
    ensures
        final(out)@ == old(out)@ + le32(v),
{
    out.push((v % 256) as u8);
    out.push(((v / 256) % 256) as u8);
    out.push(((v / 65536) % 256) as u8);
    out.push((v / 16777216) as u8);
    assert(out@ =~= old(out)@ + le32(v));
}

fn pad_with(buffer: &mut Vec<u8>, b: u8)
    requires
        old(buffer).len() + 3 <= usize::MAX,
    ensures
        final(buffer)@ == padded(old(buffer)@, b),
        final(buffer).len() % 4 == 0,
{
    let ghost start = buffer@;
    while buffer.len() % 4 != 0
        invariant
            start.len() <= buffer.len() <= start.len() + pad4(start.len()),
            start.len() + 3 <= usize::MAX,
            buffer@ == start + fill(b, (buffer.len() - start.len()) as nat),
            (buffer.len() - start.len()) < pad4(start.len()) ==> buffer.len() % 4 != 0,
            buffer.len() - start.len() == pad4(start.len()) ==> buffer.len() % 4 == 0,
        decreases start.len() + pad4(start.len()) - buffer.len(),
    {
        let ghost before = buffer@;
        buffer.push(b);
        assert(buffer@ =~= start + fill(b, (buffer.len() - start.len()) as nat));
    }
    assert(buffer.len() - start.len() == pad4(start.len()));
}

/// Pad `buffer` with zero bytes to a multiple of 4 and return its length,
/// the offset where the next aligned chunk starts.
pub fn align_offset(buffer: &mut Vec<u8>) -> (r: usize)
    requires
        old(buffer).len() + 3 <= usize::MAX,
    ensures
        final(buffer)@ == padded(old(buffer)@, 0),
        r == final(buffer).len(),
        r % 4 == 0,
{
    pad_with(buffer, 0);
    buffer.len()
}

/// The GLB file for a JSON chunk and a binary chunk: the header (`glTF`,
/// version 2, total length), the JSON chunk padded with spaces and the
/// binary chunk padded with zeros, each with its length and type. Lengths are
/// stored as their low 32 bits.
pub open spec fn glb_bytes(json: Seq<u8>, bin: Seq<u8>) -> Seq<u8> {
    let j = padded(json, 0x20);
    let b = padded(bin, 0);
    let total = 12 + 8 + j.len() + 8 + b.len();
    seq![0x67u8, 0x6cu8, 0x54u8, 0x46u8] + le32(2) + le32(total as u32) + le32(j.len() as u32) + seq![
        0x4au8,
        0x53u8,
        0x4fu8,
        0x4eu8,
    ] + j + le32(b.len() as u32) + seq![0x42u8, 0x49u8, 0x4eu8, 0x00u8] + b
}

fn append_bytes(out: &mut Vec<u8>, bytes: &Vec<u8>)
    ensures
        final(out)@ == old(out)@ + bytes@,
{
    let mut i: usize = 0;
    while i < bytes.len()
        invariant
            i <= bytes.len(),
            out@ == old(out)@ + bytes@.take(i as int),
        decreases bytes.len() - i,
    {
        out.push(bytes[i]);
        assert(bytes@.take(i + 1) =~= bytes@.take(i as int).push(bytes@[i as int]));
        i += 1;
    }
    assert(bytes@.take(i as int) == bytes@);
}

/// Frame a JSON chunk and a binary chunk as a GLB file.
pub fn glb_container(json: &Vec<u8>, bin: &Vec<u8>) -> (r: Vec<u8>)
    requires
        json.len() + bin.len() + 64 <= usize::MAX,
    ensures
        r@ == glb_bytes(json@, bin@),
{
    let mut j = json.clone();
    assert(j@ == json@);
    pad_with(&mut j, 0x20);
    let mut b = bin.clone();
    assert(b@ == bin@);
    pad_with(&mut b, 0);
    let total = 12 + 8 + j.len() + 8 + b.len();
    let mut out: Vec<u8> = Vec::new();
    out.push(0x67);
    out.push(0x6c);
    out.push(0x54);
    out.push(0x46);
    push_le32(&mut out, 2);
    #[verifier::truncate]
    let t = total as u32;
    push_le32(&mut out, t);
    #[verifier::truncate]
    let jl = j.len() as u32;
    push_le32(&mut out, jl);
    out.push(0x4a);
    out.push(0x53);
    out.push(0x4f);
    out.push(0x4e);
    append_bytes(&mut out, &j);
    #[verifier::truncate]
    let bl = b.len() as u32;
    push_le32(&mut out, bl);
    out.push(0x42);
    out.push(0x49);
    out.push(0x4e);
    out.push(0x00);
    append_bytes(&mut out, &b);
    assert(out@ =~= glb_bytes(json@, bin@));
    out
}


/// In a GLB file both chunks are 4-byte aligned, so the file length is a
/// multiple of 4; the header's length field holds the file length whenever
/// it fits in 32 bits.
pub proof fn law_glb_layout(json: Seq<u8>, bin: Seq<u8>)
    ensures
        glb_bytes(json, bin).len() % 4 == 0,
        glb_bytes(json, bin).len() == 28 + padded(json, 0x20).len() + padded(bin, 0).len(),
        glb_bytes(json, bin).len() <= u32::MAX ==> glb_bytes(json, bin).subrange(8, 12) == le32(
            glb_bytes(json, bin).len() as u32,
        ),
{
    let j = padded(json, 0x20);
    let b = padded(bin, 0);
    assert(j.len() % 4 == 0);
    assert(b.len() % 4 == 0);
    let g = glb_bytes(json, bin);
    let total = 12 + 8 + j.len() + 8 + b.len();
    assert(g.len() == total);
    assert(g.subrange(8, 12) =~= le32(total as u32));
}
} // verus!
