//! The binary glTF (`.glb`) container: a 12-byte header, a JSON chunk and an
//! optional binary chunk, every chunk 4-byte aligned.
use vstd::prelude::*;
use crate::bytes::{le32, u32_at, push_le32, push_all, lemma_le32_read, lemma_u32_at_window};

verus! {

/// Chunk type of the JSON chunk (`"JSON"` read as a little-endian number).
pub const JSON_CHUNK_TYPE: u32 = 0x4E4F534Au32;

/// Chunk type of the binary chunk (`"BIN\0"` read as a little-endian number).
pub const BIN_CHUNK_TYPE: u32 = 0x004E4942u32;

/// Container version written in the header.
pub const GLB_VERSION: u32 = 2u32;

/// The magic bytes `glTF` that open every file.
pub open spec fn glb_magic() -> Seq<u8> {
    seq![0x67u8, 0x6cu8, 0x54u8, 0x46u8]
}

/// How many fill bytes bring a length of `n` up to a multiple of four.
pub open spec fn pad_len(n: nat) -> nat {
    if n % 4 == 0 { 0 } else { (4 - n % 4) as nat }
}

/// `s` followed by enough copies of `fill` to make its length a multiple of four.
pub open spec fn padded(s: Seq<u8>, fill: u8) -> Seq<u8> {
    s + Seq::new(pad_len(s.len()), |_i: int| fill)
}

/// The length that the header declares: header, JSON chunk and, when there is
/// binary data, the binary chunk.
pub open spec fn glb_total_len(json_len: nat, bin_len: nat) -> nat {
    12 + 8 + json_len + pad_len(json_len) + if bin_len > 0 { 8 + bin_len } else { 0 }
}

/// The binary chunk: absent when there is no binary data.
pub open spec fn bin_chunk(bin: Seq<u8>) -> Seq<u8> {
    if bin.len() > 0 {
        le32(bin.len() as u32) + le32(BIN_CHUNK_TYPE) + bin
    } else {
        Seq::empty()
    }
}

/// The bytes of a `.glb` file holding the JSON document `json` and the buffer `bin`.
/// The JSON text is padded with spaces; lengths are written as 32-bit numbers.
pub open spec fn glb_file(json: Seq<u8>, bin: Seq<u8>) -> Seq<u8> {
    let j = padded(json, 0x20u8);
    glb_magic() + le32(GLB_VERSION) + le32(glb_total_len(json.len(), bin.len()) as u32)
        + le32(j.len() as u32) + le32(JSON_CHUNK_TYPE) + j + bin_chunk(bin)
}

/// Encodes a `.glb` file from the serialized glTF JSON document and the binary buffer.
pub fn glb_bytes(json: &[u8], bin: &[u8]) -> (res: Vec<u8>)
    requires
        glb_total_len(json@.len(), bin@.len()) <= usize::MAX,
    ensures
        res@ == glb_file(json@, bin@),
{
    let mut json_bytes: Vec<u8> = Vec::new();
    push_all(&mut json_bytes, json);
    let ghost fill_needed = pad_len(json@.len());
    while json_bytes.len() % 4 != 0
        invariant
            json_bytes@.len() <= json@.len() + 3,
            json_bytes@.len() <= json@.len() + fill_needed,
            fill_needed == pad_len(json@.len()),
            json_bytes@ == json@ + Seq::new((json_bytes@.len() - json@.len()) as nat, |_i: int| 0x20u8),
            json_bytes@.len() >= json@.len(),
            (json_bytes@.len() as int) % 4 != 0 ==> json_bytes@.len() < json@.len() + fill_needed,
            json@.len() + fill_needed <= usize::MAX,
        decreases json@.len() + fill_needed - json_bytes@.len(),
    {
        json_bytes.push(0x20u8);
        assert(json_bytes@ =~= json@ + Seq::new((json_bytes@.len() - json@.len()) as nat, |_i: int| 0x20u8));
    }
    assert(json_bytes@ =~= padded(json@, 0x20u8));
    let total: usize = if bin.len() > 0 {
        12 + 8 + json_bytes.len() + 8 + bin.len()
    } else {
        12 + 8 + json_bytes.len()
    };
    let mut glb: Vec<u8> = Vec::new();
    glb.push(0x67u8);
    glb.push(0x6cu8);
    glb.push(0x54u8);
    glb.push(0x46u8);
    push_le32(&mut glb, GLB_VERSION);
    push_le32(&mut glb, total as u32);
    push_le32(&mut glb, json_bytes.len() as u32);
    push_le32(&mut glb, JSON_CHUNK_TYPE);
    push_all(&mut glb, json_bytes.as_slice());
    if bin.len() > 0 {
        push_le32(&mut glb, bin.len() as u32);
        push_le32(&mut glb, BIN_CHUNK_TYPE);
        push_all(&mut glb, bin);
    }
    assert(glb@ =~= glb_file(json@, bin@));
    glb
}

/// Padding brings the length to a multiple of four, adds at most three bytes
/// and leaves the bytes it pads unchanged in front.
pub proof fn lemma_padded(s: Seq<u8>, fill: u8)
    ensures
        padded(s, fill).len() == s.len() + pad_len(s.len()),
        padded(s, fill).len() % 4 == 0,
        pad_len(s.len()) < 4,
        padded(s, fill).subrange(0, s.len() as int) == s,
        forall|i: int| s.len() <= i < padded(s, fill).len() ==> padded(s, fill)[i] == fill,
{
    assert(padded(s, fill).subrange(0, s.len() as int) =~= s);
}

/// What a reader of the file finds: the magic bytes, version 2, a declared length
/// equal to the file's length, the JSON chunk (the document followed by spaces) and,
/// when there is binary data, the binary chunk holding exactly that data.
pub proof fn lemma_glb_file_layout(json: Seq<u8>, bin: Seq<u8>)
    requires
        glb_total_len(json.len(), bin.len()) <= u32::MAX,
    ensures
        ({
            let f = glb_file(json, bin);
            let j = padded(json, 0x20u8);
            let jl = j.len() as int;
            &&& f.len() == glb_total_len(json.len(), bin.len())
            &&& f.subrange(0, 4) == glb_magic()
            &&& u32_at(f, 4) == GLB_VERSION
            &&& u32_at(f, 8) == f.len()
            &&& u32_at(f, 12) == jl
            &&& u32_at(f, 16) == JSON_CHUNK_TYPE
            &&& jl % 4 == 0
            &&& f.subrange(20, 20 + jl) == j
            &&& j.subrange(0, json.len() as int) == json
            &&& bin.len() == 0 ==> f.len() == 20 + jl
            &&& bin.len() > 0 ==> {
                &&& u32_at(f, 20 + jl) == bin.len()
                &&& u32_at(f, 24 + jl) == BIN_CHUNK_TYPE
                &&& f.subrange(28 + jl, f.len() as int) == bin
            }
        }),
{
    let f = glb_file(json, bin);
    let j = padded(json, 0x20u8);
    let jl = j.len() as int;
    let total = glb_total_len(json.len(), bin.len());
    lemma_padded(json, 0x20u8);
    lemma_le32_read(GLB_VERSION);
    lemma_le32_read(total as u32);
    lemma_le32_read(jl as u32);
    lemma_le32_read(JSON_CHUNK_TYPE);
    let rest = bin_chunk(bin);
    assert(f == glb_magic() + le32(GLB_VERSION) + le32(total as u32) + le32(jl as u32)
        + le32(JSON_CHUNK_TYPE) + j + rest);
    lemma_header_reads(glb_magic(), le32(GLB_VERSION), le32(total as u32), le32(jl as u32),
        le32(JSON_CHUNK_TYPE), j, rest);
    assert(rest.len() == if bin.len() > 0 { 8 + bin.len() } else { 0 });
    assert(f.len() == total);
    if bin.len() > 0 {
        lemma_le32_read(bin.len() as u32);
        lemma_le32_read(BIN_CHUNK_TYPE);
        lemma_bin_reads(f, 20 + jl, le32(bin.len() as u32), le32(BIN_CHUNK_TYPE), bin);
    }
}

/// A file whose binary data has a length that is a multiple of four has a length
/// that is a multiple of four.
pub proof fn lemma_glb_file_aligned(json: Seq<u8>, bin: Seq<u8>)
    requires
        bin.len() % 4 == 0,
    ensures
        glb_file(json, bin).len() % 4 == 0,
        glb_file(json, bin).len() == glb_total_len(json.len(), bin.len()),
{
    let j = padded(json, 0x20u8);
    lemma_padded(json, 0x20u8);
    let total = glb_total_len(json.len(), bin.len());
    let jl = j.len();
    let bl = bin.len();
    assert(glb_file(json, bin).len() == total);
    assert(total == 20 + jl + if bl > 0 { 8 + bl } else { 0 });
    assert(total % 4 == 0) by (nonlinear_arith)
        requires
            jl % 4 == 0,
            bl % 4 == 0,
            total == 20 + jl + if bl > 0 { 8 + bl } else { 0 },
    ;
}

/// Reading the five four-byte header fields and the chunk that follows them.
proof fn lemma_header_reads(m: Seq<u8>, a: Seq<u8>, b: Seq<u8>, c: Seq<u8>, d: Seq<u8>, j: Seq<u8>, rest: Seq<u8>)
    requires
        m.len() == 4,
        a.len() == 4,
        b.len() == 4,
        c.len() == 4,
        d.len() == 4,
    ensures
        ({
            let f = m + a + b + c + d + j + rest;
            &&& f.len() == 20 + j.len() as int + rest.len()
            &&& f.subrange(0, 4) == m
            &&& u32_at(f, 4) == u32_at(a, 0)
            &&& u32_at(f, 8) == u32_at(b, 0)
            &&& u32_at(f, 12) == u32_at(c, 0)
            &&& u32_at(f, 16) == u32_at(d, 0)
            &&& f.subrange(20, 20 + j.len() as int) == j
            &&& f.subrange(20 + j.len() as int, f.len() as int) == rest
        }),
{
    let f = m + a + b + c + d + j + rest;
    assert(f.subrange(0, 4) =~= m);
    assert(f.subrange(4, 8) =~= a);
    assert(f.subrange(8, 12) =~= b);
    assert(f.subrange(12, 16) =~= c);
    assert(f.subrange(16, 20) =~= d);
    lemma_u32_at_window(f, 4, a);
    lemma_u32_at_window(f, 8, b);
    lemma_u32_at_window(f, 12, c);
    lemma_u32_at_window(f, 16, d);
    assert(f.subrange(20, 20 + j.len() as int) =~= j);
    assert(f.subrange(20 + j.len() as int, f.len() as int) =~= rest);
}

/// Reading the binary chunk's two header fields and its data.
proof fn lemma_bin_reads(f: Seq<u8>, i: int, a: Seq<u8>, b: Seq<u8>, data: Seq<u8>)
    requires
        0 <= i <= f.len(),
        a.len() == 4,
        b.len() == 4,
        f.subrange(i, f.len() as int) == a + b + data,
    ensures
        u32_at(f, i) == u32_at(a, 0),
        u32_at(f, i + 4) == u32_at(b, 0),
        f.subrange(i + 8, f.len() as int) == data,
{
    let r = a + b + data;
    assert(f.len() - i == r.len());
    assert(f.subrange(i, i + 4) =~= r.subrange(0, 4));
    assert(r.subrange(0, 4) =~= a);
    lemma_u32_at_window(f, i, a);
    assert(f.subrange(i + 4, i + 8) =~= r.subrange(4, 8));
    assert(r.subrange(4, 8) =~= b);
    lemma_u32_at_window(f, i + 4, b);
    assert(f.subrange(i + 8, f.len() as int) =~= r.subrange(8, r.len() as int));
    assert(r.subrange(8, r.len() as int) =~= data);
}


/// The fixed bytes of a file: it opens with `glTF`, then version 2 as a
/// little-endian number; the JSON chunk is typed `JSON`, and the binary chunk,
/// when there is one, `BIN` and a zero byte.
pub proof fn lemma_glb_file_marks(json: Seq<u8>, bin: Seq<u8>)
    requires
        glb_total_len(json.len(), bin.len()) <= u32::MAX,
    ensures
        ({
            let f = glb_file(json, bin);
            let jl = padded(json, 0x20u8).len() as int;
            &&& f[0] == 0x67u8 && f[1] == 0x6cu8 && f[2] == 0x54u8 && f[3] == 0x46u8
            &&& f[4] == 2u8 && f[5] == 0u8 && f[6] == 0u8 && f[7] == 0u8
            &&& f[16] == 0x4Au8 && f[17] == 0x53u8 && f[18] == 0x4Fu8 && f[19] == 0x4Eu8
            &&& bin.len() > 0 ==> f[24 + jl] == 0x42u8 && f[25 + jl] == 0x49u8 && f[26 + jl] == 0x4Eu8
                && f[27 + jl] == 0u8
        }),
{
    let f = glb_file(json, bin);
    let j = padded(json, 0x20u8);
    let jl = j.len() as int;
    let total = glb_total_len(json.len(), bin.len());
    lemma_padded(json, 0x20u8);
    lemma_le32_read(GLB_VERSION);
    lemma_le32_read(JSON_CHUNK_TYPE);
    lemma_le32_read(BIN_CHUNK_TYPE);
    let head = glb_magic() + le32(GLB_VERSION) + le32(total as u32) + le32(jl as u32) + le32(JSON_CHUNK_TYPE);
    assert(f == head + j + bin_chunk(bin));
    assert(head.len() == 20);
    assert(f[0] == head[0] && f[1] == head[1] && f[2] == head[2] && f[3] == head[3]);
    assert(f[4] == head[4] && f[5] == head[5] && f[6] == head[6] && f[7] == head[7]);
    assert(f[16] == head[16] && f[17] == head[17] && f[18] == head[18] && f[19] == head[19]);
    if bin.len() > 0 {
        lemma_le32_read(bin.len() as u32);
        let c = bin_chunk(bin);
        assert(f[24 + jl] == c[4] && f[25 + jl] == c[5] && f[26 + jl] == c[6] && f[27 + jl] == c[7]);
    }
}

} // verus!
