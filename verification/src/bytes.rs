//! Little- and big-endian byte encodings of the integer fields that the
//! export formats use, as spec-level sequences, together with executable
//! helpers that append or read such fields on byte buffers.

use vstd::prelude::*;

verus! {

/// Two bytes of `x`, least significant first.
pub open spec fn le2(x: u16) -> Seq<u8> {
    seq![(x & 0xff) as u8, ((x >> 8) & 0xff) as u8]
}

/// Four bytes of `x`, least significant first.
pub open spec fn le4(x: u32) -> Seq<u8> {
    seq![
        (x & 0xff) as u8,
        ((x >> 8) & 0xff) as u8,
        ((x >> 16) & 0xff) as u8,
        ((x >> 24) & 0xff) as u8,
    ]
}

/// The low three bytes of `x`, least significant first.
pub open spec fn le3(x: u32) -> Seq<u8> {
    seq![(x & 0xff) as u8, ((x >> 8) & 0xff) as u8, ((x >> 16) & 0xff) as u8]
}

/// Two bytes of `x`, most significant first.
pub open spec fn be2(x: u16) -> Seq<u8> {
    seq![((x >> 8) & 0xff) as u8, (x & 0xff) as u8]
}

/// Four bytes of `x`, most significant first.
pub open spec fn be4(x: u32) -> Seq<u8> {
    seq![
        ((x >> 24) & 0xff) as u8,
        ((x >> 16) & 0xff) as u8,
        ((x >> 8) & 0xff) as u8,
        (x & 0xff) as u8,
    ]
}

/// The value encoded by two little-endian bytes.
pub open spec fn u16_of_le(b0: u8, b1: u8) -> u16 {
    (b0 as u16 | ((b1 as u16) << 8)) as u16
}

/// The value encoded by four little-endian bytes.
pub open spec fn u32_of_le(b0: u8, b1: u8, b2: u8, b3: u8) -> u32 {
    (b0 as u32 | ((b1 as u32) << 8) | ((b2 as u32) << 16) | ((b3 as u32) << 24)) as u32
}

/// Reading back the bytes of `le2` yields the encoded value.
pub proof fn lemma_le2_roundtrip(x: u16)
    ensures
        u16_of_le(le2(x)[0], le2(x)[1]) == x,
{
    assert(u16_of_le((x & 0xff) as u8, ((x >> 8) & 0xff) as u8) == x) by (bit_vector);
}

/// Reading back the bytes of `le4` yields the encoded value.
pub proof fn lemma_le4_roundtrip(x: u32)
    ensures
        u32_of_le(le4(x)[0], le4(x)[1], le4(x)[2], le4(x)[3]) == x,
{
    assert(u32_of_le(
        (x & 0xff) as u8,
        ((x >> 8) & 0xff) as u8,
        ((x >> 16) & 0xff) as u8,
        ((x >> 24) & 0xff) as u8,
    ) == x) by (bit_vector);
}

/// Append the two little-endian bytes of `x`.
pub fn push_u16_le(out: &mut Vec<u8>, x: u16)
    ensures
        final(out)@ == old(out)@ + le2(x),
{
    out.push((x & 0xff) as u8);
    out.push(((x >> 8) & 0xff) as u8);
    assert(out@ =~= old(out)@ + le2(x));
}

/// Append the four little-endian bytes of `x`.
pub fn push_u32_le(out: &mut Vec<u8>, x: u32)
    ensures
        final(out)@ == old(out)@ + le4(x),
{
    out.push((x & 0xff) as u8);
    out.push(((x >> 8) & 0xff) as u8);
    out.push(((x >> 16) & 0xff) as u8);
    out.push(((x >> 24) & 0xff) as u8);
    assert(out@ =~= old(out)@ + le4(x));
}

/// Append the low three little-endian bytes of `x`.
pub fn push_u24_le(out: &mut Vec<u8>, x: u32)
    ensures
        final(out)@ == old(out)@ + le3(x),
{
    out.push((x & 0xff) as u8);
    out.push(((x >> 8) & 0xff) as u8);
    out.push(((x >> 16) & 0xff) as u8);
    assert(out@ =~= old(out)@ + le3(x));
}

/// Append the two big-endian bytes of `x`.
pub fn push_u16_be(out: &mut Vec<u8>, x: u16)
    ensures
        final(out)@ == old(out)@ + be2(x),
{
    out.push(((x >> 8) & 0xff) as u8);
    out.push((x & 0xff) as u8);
    assert(out@ =~= old(out)@ + be2(x));
}

/// Append the four big-endian bytes of `x`.
pub fn push_u32_be(out: &mut Vec<u8>, x: u32)
    ensures
        final(out)@ == old(out)@ + be4(x),
{
    out.push(((x >> 24) & 0xff) as u8);
    out.push(((x >> 16) & 0xff) as u8);
    out.push(((x >> 8) & 0xff) as u8);
    out.push((x & 0xff) as u8);
    assert(out@ =~= old(out)@ + be4(x));
}

/// Append every byte of `src`.
pub fn push_bytes(out: &mut Vec<u8>, src: &Vec<u8>)
    ensures
        final(out)@ == old(out)@ + src@,
{
    let mut i: usize = 0;
    while i < src.len()
        invariant
            i <= src@.len(),
            out@ == old(out)@ + src@.subrange(0, i as int),
        decreases src@.len() - i,
    {
        out.push(src[i]);
        i = i + 1;
        assert(out@ =~= old(out)@ + src@.subrange(0, i as int));
    }
    assert(src@.subrange(0, src@.len() as int) =~= src@);
}

/// Append `n` zero bytes.
pub fn push_zeros(out: &mut Vec<u8>, n: usize)
    ensures
        final(out)@ == old(out)@ + zeros(n as nat),
{
    let mut i: usize = 0;
    while i < n
        invariant
            i <= n,
            out@ == old(out)@ + Seq::new(i as nat, |j: int| 0u8),
        decreases n - i,
    {
        out.push(0u8);
        i = i + 1;
        assert(out@ =~= old(out)@ + Seq::new(i as nat, |j: int| 0u8));
    }
}

/// Read the little-endian `u16` whose first byte sits at `pos`.
pub fn u16_le_at(data: &Vec<u8>, pos: usize) -> (r: u16)
    requires
        pos + 2 <= data@.len(),
    ensures
        r == u16_of_le(data@[pos as int], data@[pos as int + 1]),
{
    let n = data.len();
    data[pos] as u16 | ((data[pos + 1] as u16) << 8)
}

/// Read the little-endian `u32` whose first byte sits at `pos`.
pub fn u32_le_at(data: &Vec<u8>, pos: usize) -> (r: u32)
    requires
        pos + 4 <= data@.len(),
    ensures
        r == u32_of_le(
            data@[pos as int],
            data@[pos as int + 1],
            data@[pos as int + 2],
            data@[pos as int + 3],
        ),
{
    let n = data.len();
    data[pos] as u32 | ((data[pos + 1] as u32) << 8) | ((data[pos + 2] as u32) << 16) | ((data[pos
        + 3] as u32) << 24)
}

/// A sequence of `n` zero bytes.
pub open spec fn zeros(n: nat) -> Seq<u8> {
    Seq::new(n, |i: int| 0u8)
}

/// The little-endian `u16` whose first byte sits at `off`.
pub open spec fn rd2(data: Seq<u8>, off: int) -> u16 {
    u16_of_le(data[off], data[off + 1])
}

/// The little-endian `u32` whose first byte sits at `off`.
pub open spec fn rd4(data: Seq<u8>, off: int) -> u32 {
    u32_of_le(data[off], data[off + 1], data[off + 2], data[off + 3])
}

/// The value of three little-endian bytes starting at `off`.
pub open spec fn rd3(data: Seq<u8>, off: int) -> u32 {
    (data[off] as u32 | ((data[off + 1] as u32) << 8) | ((data[off + 2] as u32) << 16)) as u32
}

/// Read the little-endian `u16` whose first byte sits at `pos` of a slice.
pub fn slice_u16_le_at(data: &[u8], pos: usize) -> (r: u16)
    requires
        pos + 2 <= data@.len(),
    ensures
        r == rd2(data@, pos as int),
{
    let n = data.len();
    data[pos] as u16 | ((data[pos + 1] as u16) << 8)
}

/// Read the little-endian `u32` whose first byte sits at `pos` of a slice.
pub fn slice_u32_le_at(data: &[u8], pos: usize) -> (r: u32)
    requires
        pos + 4 <= data@.len(),
    ensures
        r == rd4(data@, pos as int),
{
    let n = data.len();
    data[pos] as u32 | ((data[pos + 1] as u32) << 8) | ((data[pos + 2] as u32) << 16) | ((data[pos
        + 3] as u32) << 24)
}

/// Read three little-endian bytes starting at `pos` of a slice.
pub fn slice_u24_le_at(data: &[u8], pos: usize) -> (r: u32)
    requires
        pos + 3 <= data@.len(),
    ensures
        r == rd3(data@, pos as int),
{
    let n = data.len();
    data[pos] as u32 | ((data[pos + 1] as u32) << 8) | ((data[pos + 2] as u32) << 16)
}

/// Where four bytes hold `le4(x)`, reading them back gives `x`.
pub proof fn lemma_rd4_of_le4(data: Seq<u8>, off: int, x: u32)
    requires
        0 <= off,
        off + 4 <= data.len(),
        data.subrange(off, off + 4) == le4(x),
    ensures
        rd4(data, off) == x,
{
    assert(data[off] == le4(x)[0] && data[off + 1] == le4(x)[1] && data[off + 2] == le4(x)[2]
        && data[off + 3] == le4(x)[3]) by {
        assert(data.subrange(off, off + 4)[0] == data[off]);
        assert(data.subrange(off, off + 4)[1] == data[off + 1]);
        assert(data.subrange(off, off + 4)[2] == data[off + 2]);
        assert(data.subrange(off, off + 4)[3] == data[off + 3]);
    }
    lemma_le4_roundtrip(x);
}

/// Where two bytes hold `le2(x)`, reading them back gives `x`.
pub proof fn lemma_rd2_of_le2(data: Seq<u8>, off: int, x: u16)
    requires
        0 <= off,
        off + 2 <= data.len(),
        data.subrange(off, off + 2) == le2(x),
    ensures
        rd2(data, off) == x,
{
    assert(data[off] == le2(x)[0] && data[off + 1] == le2(x)[1]) by {
        assert(data.subrange(off, off + 2)[0] == data[off]);
        assert(data.subrange(off, off + 2)[1] == data[off + 1]);
    }
    lemma_le2_roundtrip(x);
}

/// Reads inside a slice of `whole` known to equal `seg` read `seg`.
pub proof fn lemma_reads_at(whole: Seq<u8>, seg: Seq<u8>, off: int)
    requires
        0 <= off,
        off + seg.len() <= whole.len(),
        whole.subrange(off, off + seg.len() as int) == seg,
    ensures
        forall|k: int| 0 <= k < seg.len() ==> whole[off + k] == seg[k],
        forall|c: int| 0 <= c && c + 4 <= seg.len() ==> #[trigger] rd4(whole, off + c) == rd4(seg, c),
        forall|c: int| 0 <= c && c + 2 <= seg.len() ==> #[trigger] rd2(whole, off + c) == rd2(seg, c),
{
    assert forall|k: int| 0 <= k < seg.len() implies whole[off + k] == seg[k] by {
        assert(whole.subrange(off, off + seg.len() as int)[k] == whole[off + k]);
    }
}

/// In a join of parts of one width, part `t` occupies its own slice.
pub proof fn lemma_concat_bytes_uniform_index(parts: Seq<Seq<u8>>, w: int, t: int)
    requires
        forall|i: int| 0 <= i < parts.len() ==> #[trigger] parts[i].len() == w,
        0 <= t < parts.len(),
        w >= 0,
    ensures
        concat_bytes(parts).subrange(w * t, w * t + w) == parts[t],
    decreases parts.len(),
{
    lemma_concat_bytes_len_uniform(parts, w);
    if t == parts.len() - 1 {
        lemma_concat_bytes_len_uniform(parts.drop_last(), w);
        assert((parts.len() - 1) * w + w == parts.len() * w) by (nonlinear_arith);
        assert(concat_bytes(parts).subrange(w * t, w * t + w) =~= parts.last());
    } else {
        assert(forall|i: int|
            0 <= i < parts.drop_last().len() ==> #[trigger] parts.drop_last()[i] == parts[i]);
        lemma_concat_bytes_uniform_index(parts.drop_last(), w, t);
        lemma_concat_bytes_len_uniform(parts.drop_last(), w);
        assert(w * t + w <= w * (parts.len() - 1)) by (nonlinear_arith)
            requires
                t + 1 <= parts.len() - 1 && w >= 0,
        ;
        assert(0 <= w * t) by (nonlinear_arith)
            requires
                t >= 0 && w >= 0,
        ;
        assert(w * (parts.len() - 1) <= w * parts.len()) by (nonlinear_arith)
            requires
                w >= 0,
        ;
        assert(concat_bytes(parts) == concat_bytes(parts.drop_last()) + parts.last());
        assert((parts.len() - 1) * w == w * (parts.len() - 1)) by (nonlinear_arith);
        assert forall|i: int| 0 <= i < w implies concat_bytes(parts).subrange(w * t, w * t + w)[i]
            == parts[t][i] by {
            let a = concat_bytes(parts.drop_last());
            assert(a.len() == w * (parts.len() - 1));
            assert(w * t + i < a.len());
            assert((a + parts.last())[w * t + i] == a[w * t + i]);
            assert(a.subrange(w * t, w * t + w)[i] == a[w * t + i]);
            assert(a.subrange(w * t, w * t + w)[i] == parts[t][i]);
        }
        assert(concat_bytes(parts).subrange(w * t, w * t + w) =~= parts[t]);
    }
}

/// All the parts, joined in order.
pub open spec fn concat_bytes(parts: Seq<Seq<u8>>) -> Seq<u8>
    decreases parts.len(),
{
    if parts.len() == 0 {
        Seq::empty()
    } else {
        concat_bytes(parts.drop_last()) + parts.last()
    }
}

/// Joining one more part appends its bytes.
pub proof fn lemma_concat_bytes_push(parts: Seq<Seq<u8>>, p: Seq<u8>)
    ensures
        concat_bytes(parts.push(p)) == concat_bytes(parts) + p,
{
    assert(parts.push(p).drop_last() =~= parts);
    assert(parts.push(p).last() == p);
}

/// When every part has width `w`, the joined length is `w` per part.
pub proof fn lemma_concat_bytes_len_uniform(parts: Seq<Seq<u8>>, w: int)
    requires
        forall|i: int| 0 <= i < parts.len() ==> #[trigger] parts[i].len() == w,
    ensures
        concat_bytes(parts).len() == parts.len() * w,
    decreases parts.len(),
{
    if parts.len() > 0 {
        lemma_concat_bytes_len_uniform(parts.drop_last(), w);
        assert((parts.len() - 1) * w + w == parts.len() * w) by (nonlinear_arith);
    }
}

/// The summed length of the parts.
pub open spec fn total_len(parts: Seq<Seq<u8>>) -> int
    decreases parts.len(),
{
    if parts.len() == 0 {
        0
    } else {
        total_len(parts.drop_last()) + parts.last().len()
    }
}

/// The joined length is the summed length of the parts.
pub proof fn lemma_concat_bytes_len(parts: Seq<Seq<u8>>)
    ensures
        concat_bytes(parts).len() == total_len(parts),
    decreases parts.len(),
{
    if parts.len() > 0 {
        lemma_concat_bytes_len(parts.drop_last());
    }
}

} // verus!
