//! Little-endian integer encodings and byte-buffer helpers shared by the
//! serialisers of the crate.

use vstd::prelude::*;

verus! {

/// Why a byte string does not decode: a byte that names no variant of an
/// enumeration (the decoder answers `None`), or too few bytes for what the
/// encoding announces (the decoder would read past the end).
pub enum DecodeFault {
    BadTag,
    OutOfBounds,
}

/// The eight little-endian bytes of a `u64`.
pub open spec fn le_u64(x: u64) -> Seq<u8> {
    seq![
        (x & 0xff) as u8,
        ((x >> 8u64) & 0xff) as u8,
        ((x >> 16u64) & 0xff) as u8,
        ((x >> 24u64) & 0xff) as u8,
        ((x >> 32u64) & 0xff) as u8,
        ((x >> 40u64) & 0xff) as u8,
        ((x >> 48u64) & 0xff) as u8,
        ((x >> 56u64) & 0xff) as u8,
    ]
}

/// The four little-endian bytes of a `u32`.
pub open spec fn le_u32(x: u32) -> Seq<u8> {
    seq![
        (x & 0xff) as u8,
        ((x >> 8u32) & 0xff) as u8,
        ((x >> 16u32) & 0xff) as u8,
        ((x >> 24u32) & 0xff) as u8,
    ]
}

/// The `u64` whose little-endian bytes are `s[pos..pos + 8]`.
pub open spec fn read_le_u64(s: Seq<u8>, pos: int) -> u64 {
    (s[pos] as u64) | ((s[pos + 1] as u64) << 8u64) | ((s[pos + 2] as u64) << 16u64) | ((s[pos
        + 3] as u64) << 24u64) | ((s[pos + 4] as u64) << 32u64) | ((s[pos + 5] as u64) << 40u64)
        | ((s[pos + 6] as u64) << 48u64) | ((s[pos + 7] as u64) << 56u64)
}

/// The `u32` whose little-endian bytes are `s[pos..pos + 4]`.
pub open spec fn read_le_u32(s: Seq<u8>, pos: int) -> u32 {
    (s[pos] as u32) | ((s[pos + 1] as u32) << 8u32) | ((s[pos + 2] as u32) << 16u32) | ((s[pos
        + 3] as u32) << 24u32)
}

proof fn lemma_u64_bytes_roundtrip(x: u64, b0: u8, b1: u8, b2: u8, b3: u8, b4: u8, b5: u8, b6: u8, b7: u8)
    requires
        b0 == (x & 0xff) as u8,
        b1 == ((x >> 8u64) & 0xff) as u8,
        b2 == ((x >> 16u64) & 0xff) as u8,
        b3 == ((x >> 24u64) & 0xff) as u8,
        b4 == ((x >> 32u64) & 0xff) as u8,
        b5 == ((x >> 40u64) & 0xff) as u8,
        b6 == ((x >> 48u64) & 0xff) as u8,
        b7 == ((x >> 56u64) & 0xff) as u8,
    ensures
        (b0 as u64) | ((b1 as u64) << 8u64) | ((b2 as u64) << 16u64) | ((b3 as u64) << 24u64) | ((
        b4 as u64) << 32u64) | ((b5 as u64) << 40u64) | ((b6 as u64) << 48u64) | ((b7 as u64)
            << 56u64) == x,
{
    assert((b0 as u64) | ((b1 as u64) << 8u64) | ((b2 as u64) << 16u64) | ((b3 as u64) << 24u64)
        | ((b4 as u64) << 32u64) | ((b5 as u64) << 40u64) | ((b6 as u64) << 48u64) | ((b7 as u64)
        << 56u64) == x) by (bit_vector)
        requires
            b0 == (x & 0xff) as u8,
            b1 == ((x >> 8u64) & 0xff) as u8,
            b2 == ((x >> 16u64) & 0xff) as u8,
            b3 == ((x >> 24u64) & 0xff) as u8,
            b4 == ((x >> 32u64) & 0xff) as u8,
            b5 == ((x >> 40u64) & 0xff) as u8,
            b6 == ((x >> 48u64) & 0xff) as u8,
            b7 == ((x >> 56u64) & 0xff) as u8,
    ;
}

proof fn lemma_u32_bytes_roundtrip(x: u32, b0: u8, b1: u8, b2: u8, b3: u8)
    requires
        b0 == (x & 0xff) as u8,
        b1 == ((x >> 8u32) & 0xff) as u8,
        b2 == ((x >> 16u32) & 0xff) as u8,
        b3 == ((x >> 24u32) & 0xff) as u8,
    ensures
        (b0 as u32) | ((b1 as u32) << 8u32) | ((b2 as u32) << 16u32) | ((b3 as u32) << 24u32) == x,
{
    assert((b0 as u32) | ((b1 as u32) << 8u32) | ((b2 as u32) << 16u32) | ((b3 as u32) << 24u32)
        == x) by (bit_vector)
        requires
            b0 == (x & 0xff) as u8,
            b1 == ((x >> 8u32) & 0xff) as u8,
            b2 == ((x >> 16u32) & 0xff) as u8,
            b3 == ((x >> 24u32) & 0xff) as u8,
    ;
}

/// Reading eight bytes that were written by `le_u64` gives the value back,
/// wherever they stand in a longer buffer.
pub proof fn lemma_read_le_u64(s: Seq<u8>, pos: int, x: u64)
    requires
        0 <= pos,
        pos + 8 <= s.len(),
        s.subrange(pos, pos + 8) == le_u64(x),
    ensures
        read_le_u64(s, pos) == x,
{
    let w = le_u64(x);
    assert(s[pos] == w[0] && s[pos + 1] == w[1] && s[pos + 2] == w[2] && s[pos + 3] == w[3]);
    assert(s[pos + 4] == w[4] && s[pos + 5] == w[5] && s[pos + 6] == w[6] && s[pos + 7] == w[7]);
    lemma_u64_bytes_roundtrip(x, w[0], w[1], w[2], w[3], w[4], w[5], w[6], w[7]);
}

/// Reading four bytes that were written by `le_u32` gives the value back.
pub proof fn lemma_read_le_u32(s: Seq<u8>, pos: int, x: u32)
    requires
        0 <= pos,
        pos + 4 <= s.len(),
        s.subrange(pos, pos + 4) == le_u32(x),
    ensures
        read_le_u32(s, pos) == x,
{
    let w = le_u32(x);
    assert(s[pos] == w[0] && s[pos + 1] == w[1] && s[pos + 2] == w[2] && s[pos + 3] == w[3]);
    lemma_u32_bytes_roundtrip(x, w[0], w[1], w[2], w[3]);
}

/// Appends the little-endian bytes of `x`.
pub fn push_u64_le(out: &mut Vec<u8>, x: u64)
    ensures
        final(out)@ == old(out)@ + le_u64(x),
{
    out.push((x & 0xff) as u8);
    out.push(((x >> 8u64) & 0xff) as u8);
    out.push(((x >> 16u64) & 0xff) as u8);
    out.push(((x >> 24u64) & 0xff) as u8);
    out.push(((x >> 32u64) & 0xff) as u8);
    out.push(((x >> 40u64) & 0xff) as u8);
    out.push(((x >> 48u64) & 0xff) as u8);
    out.push(((x >> 56u64) & 0xff) as u8);
    assert(out@ =~= old(out)@ + le_u64(x));
}

/// Appends the little-endian bytes of `x`.
pub fn push_u32_le(out: &mut Vec<u8>, x: u32)
    ensures
        final(out)@ == old(out)@ + le_u32(x),
{
    out.push((x & 0xff) as u8);
    out.push(((x >> 8u32) & 0xff) as u8);
    out.push(((x >> 16u32) & 0xff) as u8);
    out.push(((x >> 24u32) & 0xff) as u8);
    assert(out@ =~= old(out)@ + le_u32(x));
}

/// Appends every byte of `data`, in order.
pub fn push_bytes(out: &mut Vec<u8>, data: &[u8])
    ensures
        final(out)@ == old(out)@ + data@,
{
    let ghost start = out@;
    let mut i: usize = 0;
    while i < data.len()
        invariant
            i <= data@.len(),
            out@ == start + data@.subrange(0, i as int),
        decreases data@.len() - i,
    {
        out.push(data[i]);
        i = i + 1;
        assert(out@ =~= start + data@.subrange(0, i as int));
    }
    assert(data@.subrange(0, data@.len() as int) =~= data@);
}

/// A fresh vector holding the bytes `data[start..end]`.
pub fn copy_range(data: &[u8], start: usize, end: usize) -> (r: Vec<u8>)
    requires
        start <= end <= data@.len(),
    ensures
        r@ == data@.subrange(start as int, end as int),
{
    let mut r: Vec<u8> = Vec::new();
    let mut i: usize = start;
    while i < end
        invariant
            start <= i <= end,
            end <= data@.len(),
            r@ == data@.subrange(start as int, i as int),
        decreases end - i,
    {
        r.push(data[i]);
        i = i + 1;
        assert(r@ =~= data@.subrange(start as int, i as int));
    }
    r
}

/// Reads the little-endian `u64` at `data[pos..pos + 8]`.
pub fn read_u64_at(data: &[u8], pos: usize) -> (r: u64)
    requires
        pos + 8 <= data@.len(),
    ensures
        r == read_le_u64(data@, pos as int),
{
    (data[pos] as u64) | ((data[pos + 1] as u64) << 8u64) | ((data[pos + 2] as u64) << 16u64) | ((
    data[pos + 3] as u64) << 24u64) | ((data[pos + 4] as u64) << 32u64) | ((data[pos + 5] as u64)
        << 40u64) | ((data[pos + 6] as u64) << 48u64) | ((data[pos + 7] as u64) << 56u64)
}

/// Reads the little-endian `u32` at `data[pos..pos + 4]`.
pub fn read_u32_at(data: &[u8], pos: usize) -> (r: u32)
    requires
        pos + 4 <= data@.len(),
    ensures
        r == read_le_u32(data@, pos as int),
{
    (data[pos] as u32) | ((data[pos + 1] as u32) << 8u32) | ((data[pos + 2] as u32) << 16u32) | ((
    data[pos + 3] as u32) << 24u32)
}

/// Copies the 32 bytes `data[pos..pos + 32]` into an array.
pub fn read_array32_at(data: &[u8], pos: usize) -> (r: [u8; 32])
    requires
        pos + 32 <= data@.len(),
    ensures
        r@ == data@.subrange(pos as int, pos + 32),
{
    let mut r = [0u8; 32];
    let n = data.len();
    let mut i: usize = 0;
    while i < 32
        invariant
            i <= 32,
            pos + 32 <= data@.len(),
            n == data@.len(),
            forall|j: int| 0 <= j < i ==> r@[j] == data@[pos + j],
        decreases 32 - i,
    {
        r[i] = data[pos + i];
        i = i + 1;
    }
    assert(r@ =~= data@.subrange(pos as int, pos + 32));
    r
}

/// Copies the 20 bytes `data[pos..pos + 20]` into an array.
pub fn read_array20_at(data: &[u8], pos: usize) -> (r: [u8; 20])
    requires
        pos + 20 <= data@.len(),
    ensures
        r@ == data@.subrange(pos as int, pos + 20),
{
    let mut r = [0u8; 20];
    let n = data.len();
    let mut i: usize = 0;
    while i < 20
        invariant
            i <= 20,
            pos + 20 <= data@.len(),
            n == data@.len(),
            forall|j: int| 0 <= j < i ==> r@[j] == data@[pos + j],
        decreases 20 - i,
    {
        r[i] = data[pos + i];
        i = i + 1;
    }
    assert(r@ =~= data@.subrange(pos as int, pos + 20));
    r
}

/// Whether two byte arrays of 32 bytes are equal, element by element.
pub fn eq32(a: &[u8; 32], b: &[u8; 32]) -> (r: bool)
    ensures
        r == (a@ == b@),
{
    let mut i: usize = 0;
    while i < 32
        invariant
            i <= 32,
            forall|j: int| 0 <= j < i ==> a@[j] == b@[j],
        decreases 32 - i,
    {
        if a[i] != b[i] {
            return false;
        }
        i = i + 1;
    }
    assert(a@ =~= b@);
    true
}

/// Whether two byte slices are equal, element by element.
pub fn eq_bytes(a: &[u8], b: &[u8]) -> (r: bool)
    ensures
        r == (a@ == b@),
{
    if a.len() != b.len() {
        return false;
    }
    let mut i: usize = 0;
    while i < a.len()
        invariant
            i <= a@.len(),
            a@.len() == b@.len(),
            forall|j: int| 0 <= j < i ==> a@[j] == b@[j],
        decreases a@.len() - i,
    {
        if a[i] != b[i] {
            return false;
        }
        i = i + 1;
    }
    assert(a@ =~= b@);
    true
}

/// When `a + b` is a prefix of `s`, `a` is its prefix and `b` follows it.
pub proof fn lemma_split_prefix(s: Seq<u8>, a: Seq<u8>, b: Seq<u8>)
    requires
        a.len() + b.len() <= s.len(),
        s.subrange(0, (a.len() + b.len()) as int) == a + b,
    ensures
        s.subrange(0, a.len() as int) == a,
        s.subrange(a.len() as int, (a.len() + b.len()) as int) == b,
{
    assert(s.subrange(0, a.len() as int) =~= a) by {
        assert forall|i: int| 0 <= i < a.len() implies #[trigger] s.subrange(0, a.len() as int)[i] == a[i] by {
            assert(s.subrange(0, (a.len() + b.len()) as int)[i] == (a + b)[i]);
        }
    }
    assert(s.subrange(a.len() as int, (a.len() + b.len()) as int) =~= b) by {
        assert forall|i: int| 0 <= i < b.len() implies #[trigger] s.subrange(a.len() as int, (a.len() + b.len()) as int)[i] == b[i] by {
            assert(s.subrange(0, (a.len() + b.len()) as int)[a.len() + i] == (a + b)[a.len() + i]);
            assert(s.subrange(0, (a.len() + b.len()) as int)[a.len() + i] == s[a.len() + i]);
            assert(s.subrange(a.len() as int, (a.len() + b.len()) as int)[i] == s[a.len() + i]);
        }
    }
}

/// A piece of a stretch of `s` is the same piece of `s` itself.
pub proof fn lemma_sub_of_sub(s: Seq<u8>, p: int, w: Seq<u8>, a: int, b: int)
    requires
        0 <= p,
        p + w.len() <= s.len(),
        s.subrange(p, p + w.len()) == w,
        0 <= a <= b <= w.len(),
    ensures
        s.subrange(p + a, p + b) == w.subrange(a, b),
{
    assert forall|i: int| 0 <= i < b - a implies #[trigger] s.subrange(p + a, p + b)[i] == w.subrange(a, b)[i] by {
        assert(s.subrange(p, p + w.len())[a + i] == s[p + a + i]);
    }
    assert(s.subrange(p + a, p + b) =~= w.subrange(a, b));
}

} // verus!
