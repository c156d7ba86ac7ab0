//! Packing a tile's meshes into the single binary buffer of a glTF asset.
//!
//! Every mesh with at least one vertex gets three consecutive buffer views and
//! accessors: vertex positions, vertex normals and triangle indices. Vertex
//! components are given by their 32-bit IEEE-754 bit patterns, so that the buffer
//! holds exactly the little-endian bytes of each component.
use vstd::prelude::*;
use crate::bytes::{le32, push_le32};
use crate::glb::{padded, pad_len, lemma_padded};

verus! {

/// One mesh as it goes into the buffer.
pub struct MeshBuffers {
    /// Vertex positions, each component as its bit pattern.
    pub positions: Vec<[u32; 3]>,
    /// Vertex normals, each component as its bit pattern.
    pub normals: Vec<[u32; 3]>,
    /// Triangle list, three vertex indices per triangle.
    pub indices: Vec<u32>,
}

/// A byte range of the buffer and the number of elements stored in it.
#[derive(Debug, Clone, Copy, PartialEq, Eq, Structural)]
pub struct BufferSpan {
    pub offset: usize,
    pub length: usize,
    pub count: usize,
}

/// Where one mesh's data lies in the buffer. Its buffer views and accessors are
/// numbered `first_view` (positions), `first_view + 1` (normals) and
/// `first_view + 2` (indices).
#[derive(Debug, Clone, Copy, PartialEq, Eq, Structural)]
pub struct MeshLayout {
    /// Position of the mesh in the list that was packed.
    pub mesh: usize,
    pub first_view: usize,
    pub positions: BufferSpan,
    pub normals: BufferSpan,
    pub indices: BufferSpan,
}

/// The packed buffer and the layout of every mesh stored in it.
pub struct PackedBuffer {
    pub data: Vec<u8>,
    pub layouts: Vec<MeshLayout>,
}

/// The bytes of a list of 3-vectors, component after component.
pub open spec fn vec3_bytes(v: Seq<[u32; 3]>) -> Seq<u8>
    decreases v.len(),
{
    if v.len() == 0 {
        Seq::empty()
    } else {
        let p = v.last();
        vec3_bytes(v.drop_last()) + le32(p@[0]) + le32(p@[1]) + le32(p@[2])
    }
}

/// The bytes of a list of 32-bit numbers.
pub open spec fn u32_bytes(v: Seq<u32>) -> Seq<u8>
    decreases v.len(),
{
    if v.len() == 0 {
        Seq::empty()
    } else {
        u32_bytes(v.drop_last()) + le32(v.last())
    }
}

/// A mesh's bytes: positions, then normals, then indices.
pub open spec fn mesh_bytes(m: MeshBuffers) -> Seq<u8> {
    vec3_bytes(m.positions@) + vec3_bytes(m.normals@) + u32_bytes(m.indices@)
}

/// Whether a mesh goes into the buffer: only meshes with vertices do.
pub open spec fn is_packed(m: MeshBuffers) -> bool {
    m.positions@.len() > 0
}

/// The buffer contents before the final alignment padding.
pub open spec fn packed_bytes(ms: Seq<MeshBuffers>) -> Seq<u8>
    decreases ms.len(),
{
    if ms.len() == 0 {
        Seq::empty()
    } else {
        let m = ms.last();
        packed_bytes(ms.drop_last()) + if is_packed(m) { mesh_bytes(m) } else { Seq::empty() }
    }
}

/// The layout of mesh number `mesh`, stored from `offset` on, using views from `first_view` on.
pub open spec fn layout_of(m: MeshBuffers, mesh: int, offset: int, first_view: int) -> MeshLayout {
    let np = m.positions@.len();
    let nn = m.normals@.len();
    let ni = m.indices@.len();
    MeshLayout {
        mesh: mesh as usize,
        first_view: first_view as usize,
        positions: BufferSpan { offset: offset as usize, length: (12 * np) as usize, count: np as usize },
        normals: BufferSpan {
            offset: (offset + 12 * np) as usize,
            length: (12 * nn) as usize,
            count: nn as usize,
        },
        indices: BufferSpan {
            offset: (offset + 12 * np + 12 * nn) as usize,
            length: (4 * ni) as usize,
            count: ni as usize,
        },
    }
}

/// The layouts of the packed meshes, in the order of the list.
pub open spec fn packed_layouts(ms: Seq<MeshBuffers>) -> Seq<MeshLayout>
    decreases ms.len(),
{
    if ms.len() == 0 {
        Seq::empty()
    } else {
        let m = ms.last();
        let prev = packed_layouts(ms.drop_last());
        if is_packed(m) {
            prev.push(
                layout_of(m, ms.len() - 1, packed_bytes(ms.drop_last()).len() as int, 3 * prev.len() as int),
            )
        } else {
            prev
        }
    }
}

/// The number of bytes that the meshes take before padding.
pub open spec fn packed_len(ms: Seq<MeshBuffers>) -> int
    decreases ms.len(),
{
    if ms.len() == 0 {
        0
    } else {
        let m = ms.last();
        packed_len(ms.drop_last()) + if is_packed(m) {
            12 * m.positions@.len() + 12 * m.normals@.len() + 4 * m.indices@.len()
        } else {
            0
        }
    }
}

pub proof fn lemma_vec3_bytes_len(v: Seq<[u32; 3]>)
    ensures
        vec3_bytes(v).len() == 12 * v.len(),
    decreases v.len(),
{
    if v.len() > 0 {
        lemma_vec3_bytes_len(v.drop_last());
    }
}

pub proof fn lemma_u32_bytes_len(v: Seq<u32>)
    ensures
        u32_bytes(v).len() == 4 * v.len(),
    decreases v.len(),
{
    if v.len() > 0 {
        lemma_u32_bytes_len(v.drop_last());
    }
}

/// The packed length is the length of the packed bytes.
pub proof fn lemma_packed_len(ms: Seq<MeshBuffers>)
    ensures
        packed_bytes(ms).len() == packed_len(ms),
        packed_len(ms) >= 0,
    decreases ms.len(),
{
    if ms.len() > 0 {
        lemma_packed_len(ms.drop_last());
        let m = ms.last();
        lemma_vec3_bytes_len(m.positions@);
        lemma_vec3_bytes_len(m.normals@);
        lemma_u32_bytes_len(m.indices@);
    }
}

/// Each packed mesh takes at least twelve bytes.
pub proof fn lemma_layouts_count(ms: Seq<MeshBuffers>)
    ensures
        12 * packed_layouts(ms).len() <= packed_len(ms),
    decreases ms.len(),
{
    if ms.len() > 0 {
        lemma_layouts_count(ms.drop_last());
    }
}

/// The packed length never shrinks as meshes are added.
pub proof fn lemma_packed_len_monotone(ms: Seq<MeshBuffers>, i: int)
    requires
        0 <= i <= ms.len(),
    ensures
        packed_len(ms.take(i)) <= packed_len(ms),
    decreases ms.len() - i,
{
    if i < ms.len() {
        lemma_packed_len_monotone(ms, i + 1);
        assert(ms.take(i + 1).drop_last() =~= ms.take(i));
    } else {
        assert(ms.take(i) =~= ms);
    }
}

/// Appends the bytes of the 3-vectors `v`.
fn push_vec3s(out: &mut Vec<u8>, v: &Vec<[u32; 3]>)
    ensures
        final(out)@ == old(out)@ + vec3_bytes(v@),
{
    let ghost start = out@;
    let n = v.len();
    for i in 0..n
        invariant
            n == v@.len(),
            out@ == start + vec3_bytes(v@.take(i as int)),
    {
        let p = v[i];
        push_le32(out, p[0]);
        push_le32(out, p[1]);
        push_le32(out, p[2]);
        assert(v@.take(i + 1).drop_last() =~= v@.take(i as int));
        assert(out@ =~= start + vec3_bytes(v@.take(i + 1)));
    }
    assert(v@.take(n as int) =~= v@);
}

/// Appends the bytes of the numbers `v`.
fn push_u32s(out: &mut Vec<u8>, v: &Vec<u32>)
    ensures
        final(out)@ == old(out)@ + u32_bytes(v@),
{
    let ghost start = out@;
    let n = v.len();
    for i in 0..n
        invariant
            n == v@.len(),
            out@ == start + u32_bytes(v@.take(i as int)),
    {
        push_le32(out, v[i]);
        assert(v@.take(i + 1).drop_last() =~= v@.take(i as int));
        assert(out@ =~= start + u32_bytes(v@.take(i + 1)));
    }
    assert(v@.take(n as int) =~= v@);
}

/// Packs the meshes, in order, into one buffer padded with zeros to a multiple of
/// four bytes. Meshes without vertices are left out.
pub fn pack_meshes(meshes: &Vec<MeshBuffers>) -> (res: PackedBuffer)
    requires
        packed_len(meshes@) + 3 <= usize::MAX,
    ensures
        res.data@ == padded(packed_bytes(meshes@), 0u8),
        res.layouts@ == packed_layouts(meshes@),
{
    let mut data: Vec<u8> = Vec::new();
    let mut layouts: Vec<MeshLayout> = Vec::new();
    let n = meshes.len();
    for k in 0..n
        invariant
            n == meshes@.len(),
            packed_len(meshes@) + 3 <= usize::MAX,
            data@ == packed_bytes(meshes@.take(k as int)),
            layouts@ == packed_layouts(meshes@.take(k as int)),
    {
        let m = &meshes[k];
        proof {
            assert(meshes@.take(k + 1).drop_last() =~= meshes@.take(k as int));
            lemma_packed_len(meshes@.take(k as int));
            lemma_packed_len_monotone(meshes@, k + 1);
            lemma_layouts_count(meshes@.take(k as int));
            lemma_vec3_bytes_len(m.positions@);
            lemma_vec3_bytes_len(m.normals@);
            lemma_u32_bytes_len(m.indices@);
        }
        if m.positions.len() > 0 {
            let offset = data.len();
            let ghost before = data@;
            push_vec3s(&mut data, &m.positions);
            let normal_offset = data.len();
            push_vec3s(&mut data, &m.normals);
            let index_offset = data.len();
            push_u32s(&mut data, &m.indices);
            let end = data.len();
            let layout = MeshLayout {
                mesh: k,
                first_view: 3 * layouts.len(),
                positions: BufferSpan {
                    offset: offset,
                    length: normal_offset - offset,
                    count: m.positions.len(),
                },
                normals: BufferSpan {
                    offset: normal_offset,
                    length: index_offset - normal_offset,
                    count: m.normals.len(),
                },
                indices: BufferSpan {
                    offset: index_offset,
                    length: end - index_offset,
                    count: m.indices.len(),
                },
            };
            layouts.push(layout);
            assert(data@ =~= before + mesh_bytes(*m));
        }
    }
    assert(meshes@.take(n as int) =~= meshes@);
    proof {
        lemma_packed_len(meshes@);
    }
    let ghost unpadded = data@;
    while data.len() % 4 != 0
        invariant
            unpadded == packed_bytes(meshes@),
            unpadded.len() + 3 <= usize::MAX,
            data@.len() >= unpadded.len(),
            data@.len() <= unpadded.len() + pad_len(unpadded.len()),
            pad_len(unpadded.len()) < 4,
            data@ == unpadded + Seq::new((data@.len() - unpadded.len()) as nat, |_i: int| 0u8),
            (data@.len() as int) % 4 != 0 ==> data@.len() < unpadded.len() + pad_len(unpadded.len()),
        decreases unpadded.len() + pad_len(unpadded.len()) - data@.len(),
    {
        data.push(0u8);
        assert(data@ =~= unpadded + Seq::new((data@.len() - unpadded.len()) as nat, |_i: int| 0u8));
    }
    proof {
        lemma_padded(unpadded, 0u8);
    }
    assert(data@ =~= padded(unpadded, 0u8));
    PackedBuffer { data, layouts }
}

/// What a reader of the buffer finds through the layouts: layout number `k` names a
/// mesh with vertices and uses buffer views `3k` to `3k + 2`, and the mesh's
/// positions, normals and indices lie back to back at the spans the layout gives.
pub proof fn lemma_packed_layout_reads(ms: Seq<MeshBuffers>)
    requires
        packed_len(ms) <= usize::MAX,
        ms.len() <= usize::MAX,
    ensures
        forall|k: int| 0 <= k < packed_layouts(ms).len() ==>
            layout_reads(packed_bytes(ms), ms, #[trigger] packed_layouts(ms)[k], k),
    decreases ms.len(),
{
    lemma_packed_len(ms);
    if ms.len() > 0 {
        let prev = ms.drop_last();
        let m = ms.last();
        lemma_packed_len(prev);
        lemma_packed_len_monotone(ms, ms.len() - 1);
        assert(ms.take(ms.len() - 1) =~= prev);
        lemma_packed_layout_reads(prev);
        let pdata = packed_bytes(prev);
        let pls = packed_layouts(prev);
        let data = packed_bytes(ms);
        let ls = packed_layouts(ms);
        assert(data.subrange(0, pdata.len() as int) =~= pdata);
        assert forall|k: int| 0 <= k < pls.len() implies layout_reads(data, ms, #[trigger] pls[k], k) by {
            let l = pls[k];
            assert(layout_reads(pdata, prev, l, k));
            assert(prev[l.mesh as int] == ms[l.mesh as int]);
            lemma_prefix_subrange(pdata, data, l.positions.offset as int, l.positions.length as int);
            lemma_prefix_subrange(pdata, data, l.normals.offset as int, l.normals.length as int);
            lemma_prefix_subrange(pdata, data, l.indices.offset as int, l.indices.length as int);
        }
        if is_packed(m) {
            lemma_new_layout_reads(ms);
            assert forall|k: int| 0 <= k < ls.len() implies layout_reads(data, ms, #[trigger] ls[k], k) by {
                if k < pls.len() {
                    assert(ls[k] == pls[k]);
                }
            }
        } else {
            assert(data =~= pdata);
        }
    }
}

/// The layout added for the last mesh of the list reads back that mesh.
proof fn lemma_new_layout_reads(ms: Seq<MeshBuffers>)
    requires
        ms.len() > 0,
        is_packed(ms.last()),
        packed_len(ms) <= usize::MAX,
        ms.len() <= usize::MAX,
    ensures
        layout_reads(packed_bytes(ms), ms, packed_layouts(ms).last(), packed_layouts(ms).len() - 1),
{
    let prev = ms.drop_last();
    let m = ms.last();
    lemma_packed_len(prev);
    lemma_packed_len(ms);
    lemma_vec3_bytes_len(m.positions@);
    lemma_vec3_bytes_len(m.normals@);
    lemma_u32_bytes_len(m.indices@);
    let pdata = packed_bytes(prev);
    let data = packed_bytes(ms);
    let off = pdata.len() as int;
    let a = vec3_bytes(m.positions@);
    let b = vec3_bytes(m.normals@);
    let c = u32_bytes(m.indices@);
    lemma_layouts_count(prev);
    assert(packed_len(ms) == packed_len(prev) + 12 * m.positions@.len() + 12 * m.normals@.len() + 4 * m.indices@.len());
    assert(packed_layouts(ms).last() == layout_of(m, ms.len() - 1, off, 3 * packed_layouts(prev).len() as int));
    assert(data =~= pdata + a + b + c);
    assert(data.subrange(off, off + a.len()) =~= a);
    assert(data.subrange(off + a.len(), off + a.len() + b.len()) =~= b);
    assert(data.subrange(off + a.len() + b.len(), data.len() as int) =~= c);
}

/// Layout `b` starts in the buffer where layout `a` ends, and names a later mesh.
pub open spec fn follows(a: MeshLayout, b: MeshLayout) -> bool {
    b.positions.offset == a.indices.offset + a.indices.length && a.mesh < b.mesh
}

/// The layouts of a list, read in order, start at the front of the buffer, follow one
/// another and end where the buffer ends; they name meshes of the list.
pub open spec fn layouts_tile(ls: Seq<MeshLayout>, len: int, count: int) -> bool {
    &&& forall|k: int| 0 <= k < ls.len() - 1 ==> follows(#[trigger] ls[k], ls[k + 1])
    &&& forall|k: int| 0 <= k < ls.len() ==> #[trigger] ls[k].mesh < count
    &&& ls.len() == 0 ==> len == 0
    &&& ls.len() > 0 ==> ls[0].positions.offset == 0 && ls.last().indices.offset + ls.last().indices.length == len
}

/// Consecutive layouts follow each other in the buffer and in the list of meshes;
/// the first starts the buffer and the last ends it.
pub proof fn lemma_packed_layouts_adjacent(ms: Seq<MeshBuffers>)
    requires
        packed_len(ms) <= usize::MAX,
        ms.len() <= usize::MAX,
    ensures
        layouts_tile(packed_layouts(ms), packed_bytes(ms).len() as int, ms.len() as int),
    decreases ms.len(),
{
    lemma_packed_len(ms);
    if ms.len() > 0 {
        let prev = ms.drop_last();
        lemma_packed_len(prev);
        lemma_packed_len_monotone(ms, ms.len() - 1);
        assert(ms.take(ms.len() - 1) =~= prev);
        lemma_packed_layouts_adjacent(prev);
        if is_packed(ms.last()) {
            lemma_adjacent_step(ms);
        } else {
            assert(packed_bytes(ms) =~= packed_bytes(prev));
        }
    }
}

proof fn lemma_adjacent_step(ms: Seq<MeshBuffers>)
    requires
        ms.len() > 0,
        is_packed(ms.last()),
        packed_len(ms) <= usize::MAX,
        ms.len() <= usize::MAX,
        layouts_tile(packed_layouts(ms.drop_last()), packed_bytes(ms.drop_last()).len() as int, ms.len() - 1),
    ensures
        layouts_tile(packed_layouts(ms), packed_bytes(ms).len() as int, ms.len() as int),
{
    let prev = ms.drop_last();
    let m = ms.last();
    lemma_packed_len(prev);
    lemma_packed_len(ms);
    lemma_layouts_count(prev);
    lemma_vec3_bytes_len(m.positions@);
    lemma_vec3_bytes_len(m.normals@);
    lemma_u32_bytes_len(m.indices@);
    let ls = packed_layouts(ms);
    let pls = packed_layouts(prev);
    let new = layout_of(m, ms.len() - 1, packed_bytes(prev).len() as int, 3 * pls.len() as int);
    assert(packed_len(ms) == packed_len(prev) + 12 * m.positions@.len() + 12 * m.normals@.len() + 4 * m.indices@.len());
    assert(ls == pls.push(new));
    assert(new.positions.offset == packed_bytes(prev).len());
    assert(new.mesh == ms.len() - 1);
    assert(new.indices.offset + new.indices.length == packed_bytes(ms).len());
    assert forall|k: int| 0 <= k < ls.len() - 1 implies follows(#[trigger] ls[k], ls[k + 1]) by {
        assert(ls[k] == pls[k]);
        if k + 1 < pls.len() {
            assert(ls[k + 1] == pls[k + 1]);
            assert(follows(pls[k], pls[k + 1]));
        } else {
            assert(ls[k + 1] == new);
            assert(pls[k] == pls.last());
        }
    }
    assert forall|k: int| 0 <= k < ls.len() implies #[trigger] ls[k].mesh < ms.len() by {
        if k < pls.len() {
            assert(ls[k] == pls[k]);
        }
    }
}

/// Every mesh with vertices has a layout.
pub proof fn lemma_packed_layouts_complete(ms: Seq<MeshBuffers>)
    requires
        ms.len() <= usize::MAX,
    ensures
        forall|i: int| 0 <= i < ms.len() && is_packed(#[trigger] ms[i]) ==>
            exists|k: int| 0 <= k < packed_layouts(ms).len() && packed_layouts(ms)[k].mesh == i,
    decreases ms.len(),
{
    if ms.len() > 0 {
        let prev = ms.drop_last();
        lemma_packed_layouts_complete(prev);
        let ls = packed_layouts(ms);
        let pls = packed_layouts(prev);
        assert forall|i: int| 0 <= i < ms.len() && is_packed(#[trigger] ms[i]) implies
            exists|k: int| 0 <= k < ls.len() && ls[k].mesh == i by {
            if i < prev.len() {
                assert(prev[i] == ms[i]);
                let k = choose|k: int| 0 <= k < pls.len() && pls[k].mesh == i;
                assert(ls[k] == pls[k]);
            } else {
                assert(ls[ls.len() - 1].mesh == i);
            }
        }
    }
}

/// Layout number `k` names a packed mesh, uses views `3k` to `3k + 2`, and its
/// three spans hold that mesh's positions, normals and indices, back to back.
pub open spec fn layout_reads(data: Seq<u8>, ms: Seq<MeshBuffers>, l: MeshLayout, k: int) -> bool {
    &&& 0 <= l.mesh < ms.len()
    &&& is_packed(ms[l.mesh as int])
    &&& l.first_view == 3 * k
    &&& l.positions.count == ms[l.mesh as int].positions@.len()
    &&& l.normals.count == ms[l.mesh as int].normals@.len()
    &&& l.indices.count == ms[l.mesh as int].indices@.len()
    &&& l.normals.offset == l.positions.offset + l.positions.length
    &&& l.indices.offset == l.normals.offset + l.normals.length
    &&& l.indices.offset + l.indices.length <= data.len()
    &&& data.subrange(l.positions.offset as int, l.positions.offset + l.positions.length)
        == vec3_bytes(ms[l.mesh as int].positions@)
    &&& data.subrange(l.normals.offset as int, l.normals.offset + l.normals.length)
        == vec3_bytes(ms[l.mesh as int].normals@)
    &&& data.subrange(l.indices.offset as int, l.indices.offset + l.indices.length)
        == u32_bytes(ms[l.mesh as int].indices@)
}

/// A window of a prefix is the same window of the whole.
proof fn lemma_prefix_subrange(p: Seq<u8>, s: Seq<u8>, i: int, n: int)
    requires
        0 <= i,
        0 <= n,
        i + n <= p.len(),
        p.len() <= s.len(),
        s.subrange(0, p.len() as int) == p,
    ensures
        s.subrange(i, i + n) == p.subrange(i, i + n),
{
    assert forall|t: int| 0 <= t < n implies #[trigger] s.subrange(i, i + n)[t] == p.subrange(i, i + n)[t] by {
        assert(s.subrange(0, p.len() as int)[i + t] == s[i + t]);
    }
    assert(s.subrange(i, i + n) =~= p.subrange(i, i + n));
}


/// The meshes that go into the buffer, in order.
pub open spec fn packed_only(ms: Seq<MeshBuffers>) -> Seq<MeshBuffers>
    decreases ms.len(),
{
    if ms.len() == 0 {
        Seq::empty()
    } else {
        let prev = packed_only(ms.drop_last());
        if is_packed(ms.last()) { prev.push(ms.last()) } else { prev }
    }
}

/// Two layouts put their mesh at the same place: the same views and the same spans.
pub open spec fn same_place(a: MeshLayout, b: MeshLayout) -> bool {
    &&& a.first_view == b.first_view
    &&& a.positions == b.positions
    &&& a.normals == b.normals
    &&& a.indices == b.indices
}

proof fn lemma_packed_only_step(ms: Seq<MeshBuffers>)
    requires
        ms.len() <= usize::MAX,
    ensures
        packed_bytes(packed_only(ms)) == packed_bytes(ms),
        packed_layouts(packed_only(ms)).len() == packed_layouts(ms).len(),
        packed_only(ms).len() <= ms.len(),
        forall|k: int| 0 <= k < packed_layouts(ms).len() ==> {
            let a = #[trigger] packed_layouts(ms)[k];
            let b = packed_layouts(packed_only(ms))[k];
            &&& same_place(a, b)
            &&& 0 <= a.mesh < ms.len()
            &&& 0 <= b.mesh < packed_only(ms).len()
            &&& ms[a.mesh as int] == packed_only(ms)[b.mesh as int]
        },
    decreases ms.len(),
{
    if ms.len() > 0 {
        let prev = ms.drop_last();
        let m = ms.last();
        let p = packed_only(prev);
        lemma_packed_only_step(prev);
        if is_packed(m) {
            let q = p.push(m);
            assert(q.drop_last() =~= p);
            assert(q.last() == m);
            let la = packed_layouts(ms);
            let lb = packed_layouts(q);
            assert forall|k: int| 0 <= k < la.len() implies {
                let a = #[trigger] la[k];
                let b = lb[k];
                &&& same_place(a, b)
                &&& 0 <= a.mesh < ms.len()
                &&& 0 <= b.mesh < q.len()
                &&& ms[a.mesh as int] == q[b.mesh as int]
            } by {
                if k < la.len() - 1 {
                    let a = packed_layouts(prev)[k];
                    let b = packed_layouts(p)[k];
                    assert(la[k] == a);
                    assert(lb[k] == b);
                    assert(ms[a.mesh as int] == prev[a.mesh as int]);
                    assert(q[b.mesh as int] == p[b.mesh as int]);
                } else {
                    assert(la[k] == layout_of(m, ms.len() - 1, packed_bytes(prev).len() as int,
                        3 * packed_layouts(prev).len() as int));
                    assert(lb[k] == layout_of(m, p.len() as int, packed_bytes(p).len() as int,
                        3 * packed_layouts(p).len() as int));
                    assert(q[p.len() as int] == m);
                }
            }
        } else {
            let la = packed_layouts(ms);
            assert forall|k: int| 0 <= k < la.len() implies {
                let a = #[trigger] la[k];
                let b = packed_layouts(p)[k];
                &&& same_place(a, b)
                &&& 0 <= a.mesh < ms.len()
                &&& 0 <= b.mesh < p.len()
                &&& ms[a.mesh as int] == p[b.mesh as int]
            } by {
                let a = packed_layouts(prev)[k];
                assert(la[k] == a);
                assert(ms[a.mesh as int] == prev[a.mesh as int]);
            }
        }
    }
}

/// Meshes without vertices change nothing: two lists that agree on the meshes with
/// vertices, in order, pack to the same bytes, with layouts at the same places for
/// the same meshes; and when no mesh has vertices the buffer is empty and there
/// are no layouts.
pub proof fn lemma_meshes_without_vertices_change_nothing(ms1: Seq<MeshBuffers>, ms2: Seq<MeshBuffers>)
    requires
        ms1.len() <= usize::MAX,
        ms2.len() <= usize::MAX,
    ensures
        packed_only(ms1) == packed_only(ms2) ==> {
            &&& packed_bytes(ms1) == packed_bytes(ms2)
            &&& packed_layouts(ms1).len() == packed_layouts(ms2).len()
            &&& forall|k: int| 0 <= k < packed_layouts(ms1).len() ==> {
                let a = #[trigger] packed_layouts(ms1)[k];
                let b = packed_layouts(ms2)[k];
                &&& same_place(a, b)
                &&& ms1[a.mesh as int] == ms2[b.mesh as int]
            }
        },
        packed_only(ms1).len() == 0 ==> {
            &&& padded(packed_bytes(ms1), 0u8).len() == 0
            &&& packed_layouts(ms1).len() == 0
        },
{
    lemma_packed_only_step(ms1);
    lemma_packed_only_step(ms2);
    lemma_padded(packed_bytes(ms1), 0u8);
    if packed_only(ms1) == packed_only(ms2) {
        assert forall|k: int| 0 <= k < packed_layouts(ms1).len() implies {
            let a = #[trigger] packed_layouts(ms1)[k];
            let b = packed_layouts(ms2)[k];
            &&& same_place(a, b)
            &&& ms1[a.mesh as int] == ms2[b.mesh as int]
        } by {
            assert(packed_layouts(ms2)[k] == packed_layouts(ms2)[k]);
        }
    }
    if packed_only(ms1).len() == 0 {
        assert(packed_only(ms1) =~= Seq::<MeshBuffers>::empty());
        assert(packed_bytes(packed_only(ms1)) =~= Seq::<u8>::empty());
    }
}

} // verus!
