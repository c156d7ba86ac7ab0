//! Little-endian byte encoding used by the binary asset formats.
use vstd::prelude::*;

verus! {

/// The four little-endian bytes of `x`.
pub open spec fn le32(x: u32) -> Seq<u8> {
    seq![
        (x % 256) as u8,
        ((x / 256) % 256) as u8,
        ((x / 65536) % 256) as u8,
        (x / 16777216) as u8,
    ]
}

/// The little-endian 32-bit number stored at `s[i..i + 4]`.
pub open spec fn u32_at(s: Seq<u8>, i: int) -> int {
    s[i] + 256 * s[i + 1] + 65536 * s[i + 2] + 16777216 * s[i + 3]
}

/// Reading four bytes back gives the number that was encoded.
pub proof fn lemma_le32_read(x: u32)
    ensures
        le32(x).len() == 4,
        u32_at(le32(x), 0) == x,
        le32(x)[0] == x % 256,
        le32(x)[1] == (x / 256) % 256,
        le32(x)[2] == (x / 65536) % 256,
        le32(x)[3] == x / 16777216,
{
    assert(u32_at(le32(x), 0) == x) by (nonlinear_arith)
        requires
            le32(x)[0] == x % 256,
            le32(x)[1] == (x / 256) % 256,
            le32(x)[2] == (x / 65536) % 256,
            le32(x)[3] == x / 16777216,
            x <= 0xffff_ffff,
    ;
}

/// A `u32_at` read only depends on the four bytes it covers.
pub proof fn lemma_u32_at_window(s: Seq<u8>, i: int, w: Seq<u8>)
    requires
        0 <= i,
        i + 4 <= s.len(),
        w == s.subrange(i, i + 4),
    ensures
        u32_at(s, i) == u32_at(w, 0),
{
    assert(s[i] == w[0] && s[i + 1] == w[1] && s[i + 2] == w[2] && s[i + 3] == w[3]);
}

/// Appends the little-endian bytes of `x` to `out`.
pub fn push_le32(out: &mut Vec<u8>, x: u32)
    ensures
        final(out)@ == old(out)@ + le32(x),
{
    out.push((x % 256) as u8);
    out.push(((x / 256) % 256) as u8);
    out.push(((x / 65536) % 256) as u8);
    out.push((x / 16777216) as u8);
    assert(final(out)@ =~= old(out)@ + le32(x));
}

/// Appends all of `src` to `out`.
pub fn push_all(out: &mut Vec<u8>, src: &[u8])
    ensures
        final(out)@ == old(out)@ + src@,
{
    let ghost start = out@;
    let n = src.len();
    for i in 0..n
        invariant
            n == src@.len(),
            out@ == start + src@.take(i as int),
    {
        out.push(src[i]);
        assert(src@.take(i + 1) =~= src@.take(i as int).push(src@[i as int]));
    }
    assert(src@.take(n as int) =~= src@);
}

} // verus!
