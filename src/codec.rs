use vstd::prelude::*;

verus! {

/// Byte `j` (0 = least significant) of `x`.
pub open spec fn byte_of(x: u32, j: int) -> u8 {
    if j == 0 {
        (x % 256) as u8
    } else if j == 1 {
        (x / 256 % 256) as u8
    } else if j == 2 {
        (x / 65536 % 256) as u8
    } else {
        (x / 16777216 % 256) as u8
    }
}

/// The words `ws` as a little-endian byte stream, four bytes per word.
pub open spec fn le_bytes(ws: Seq<u32>) -> Seq<u8> {
    Seq::new(4 * ws.len(), |i: int| byte_of(ws[i / 4], i % 4))
}

/// The word whose little-endian bytes start at `p` in `b`.
pub open spec fn word_at(b: Seq<u8>, p: int) -> u32 {
    (b[p] + 256 * b[p + 1] + 65536 * b[p + 2] + 16777216 * b[p + 3]) as u32
}

/// The words read back from a byte stream in groups of four, in order; a
/// trailing group of fewer than four bytes is ignored.
pub open spec fn from_le_bytes(b: Seq<u8>) -> Seq<u32> {
    Seq::new(b.len() / 4, |k: int| word_at(b, 4 * k))
}

proof fn lemma_bytes_rebuild(x: u32)
    ensures
        byte_of(x, 0) + 256 * byte_of(x, 1) + 65536 * byte_of(x, 2) + 16777216 * byte_of(x, 3)
            == x,
{
    let a = x / 256;
    let b = x / 65536;
    let c = x / 16777216;
    assert(x == 256 * a + x % 256);
    assert(a == 256 * (a / 256) + a % 256);
    assert(a / 256 == b);
    assert(b == 256 * (b / 256) + b % 256);
    assert(b / 256 == c);
    assert(c < 256);
}

/// Encodes the bit patterns of an embedding's `f32` values as the stored byte
/// stream: each value as four little-endian bytes, in order.
pub fn encode_embedding(ws: &Vec<u32>) -> (r: Vec<u8>)
    ensures
        r@ == le_bytes(ws@),
{
    let mut out: Vec<u8> = Vec::new();
    for k in 0..ws.len()
        invariant
            out@ == le_bytes(ws@.take(k as int)),
    {
        let x = ws[k];
        out.push((x % 256) as u8);
        out.push((x / 256 % 256) as u8);
        out.push((x / 65536 % 256) as u8);
        out.push((x / 16777216 % 256) as u8);
        assert(out@ =~= le_bytes(ws@.take(k as int + 1)));
    }
    assert(ws@.take(ws@.len() as int) =~= ws@);
    out
}

/// Decodes a stored byte stream into the bit patterns of the embedding's `f32`
/// values: four little-endian bytes each, a trailing partial group dropped.
pub fn decode_embedding(b: &Vec<u8>) -> (r: Vec<u32>)
    ensures
        r@ == from_le_bytes(b@),
{
    let mut out: Vec<u32> = Vec::new();
    let len = b.len();
    let n = len / 4;
    for k in 0..n
        invariant
            len == b@.len(),
            n == b@.len() / 4,
            out@ == from_le_bytes(b@).take(k as int),
    {
        assert(4 * k + 3 < len);
        let p = 4 * k;
        let x = b[p] as u32 + 256 * (b[p + 1] as u32) + 65536 * (b[p + 2] as u32) + 16777216 * (b[p
            + 3] as u32);
        out.push(x);
        assert(out@ =~= from_le_bytes(b@).take(k as int + 1));
    }
    assert(from_le_bytes(b@).take(n as int) =~= from_le_bytes(b@));
    out
}

/// Storing an embedding as bytes and reading it back gives the same bit
/// patterns, hence the same `f32` values.
pub proof fn lemma_embedding_round_trip(ws: Seq<u32>)
    ensures
        from_le_bytes(le_bytes(ws)) == ws,
{
    let b = le_bytes(ws);
    assert(b.len() / 4 == ws.len());
    assert forall|k: int| 0 <= k < ws.len() implies #[trigger] word_at(b, 4 * k) == ws[k] by {
        assert(b[4 * k] == byte_of(ws[k], 0));
        assert(b[4 * k + 1] == byte_of(ws[k], 1));
        assert(b[4 * k + 2] == byte_of(ws[k], 2));
        assert(b[4 * k + 3] == byte_of(ws[k], 3));
        lemma_bytes_rebuild(ws[k]);
    }
    assert(from_le_bytes(b) =~= ws);
}

} // verus!
