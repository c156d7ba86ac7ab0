use lonely_highway_pipeline::buffer::{pack_meshes, MeshBuffers};
use lonely_highway_pipeline::glb::glb_bytes;

fn u32_at(d: &[u8], i: usize) -> u32 {
    u32::from_le_bytes([d[i], d[i + 1], d[i + 2], d[i + 3]])
}

fn bits(v: [f32; 3]) -> [u32; 3] {
    [v[0].to_bits(), v[1].to_bits(), v[2].to_bits()]
}

fn quad() -> MeshBuffers {
    MeshBuffers {
        positions: vec![
            bits([0.0, 0.0, 0.0]),
            bits([100.0, 0.0, 0.0]),
            bits([100.0, 0.0, 100.0]),
            bits([0.0, 0.0, 100.0]),
        ],
        normals: vec![bits([0.0, 1.0, 0.0]); 4],
        indices: vec![0, 1, 2, 0, 2, 3],
    }
}

#[test]
fn glb_header_and_chunks() {
    let json = b"{\"asset\":{\"version\":\"2.0\"}}";
    let bin = [1u8, 2, 3, 4, 5, 6, 7, 8];
    let glb = glb_bytes(json, &bin);
    assert_eq!(&glb[0..4], b"glTF");
    assert_eq!(u32_at(&glb, 4), 2);
    assert_eq!(u32_at(&glb, 8) as usize, glb.len());
    let jl = u32_at(&glb, 12) as usize;
    assert_eq!(jl, 28);
    assert_eq!(u32_at(&glb, 16), 0x4E4F534A);
    assert_eq!(&glb[20..20 + json.len()], json);
    assert_eq!(u32_at(&glb, 20 + jl), 8);
    assert_eq!(u32_at(&glb, 24 + jl), 0x004E4942);
    assert_eq!(&glb[28 + jl..], &bin);
    assert_eq!(glb.len() % 4, 0);
}

#[test]
fn json_is_padded_with_spaces() {
    let glb = glb_bytes(b"{}", &[]);
    assert_eq!(glb.len(), 24);
    assert_eq!(u32_at(&glb, 8), 24);
    assert_eq!(u32_at(&glb, 12), 4);
    assert_eq!(&glb[20..24], b"{}  ");
}

#[test]
fn empty_buffer_has_no_binary_chunk() {
    let glb = glb_bytes(b"{\"a\":1}", &[]);
    assert_eq!(&glb[0..4], b"glTF");
    assert_eq!(glb.len(), 28);
}

#[test]
fn quad_mesh_packs_positions_normals_indices() {
    let packed = pack_meshes(&vec![quad()]);
    assert_eq!(packed.data.len(), 48 + 48 + 24);
    assert_eq!(packed.layouts.len(), 1);
    let l = packed.layouts[0];
    assert_eq!((l.positions.offset, l.positions.length, l.positions.count), (0, 48, 4));
    assert_eq!((l.normals.offset, l.normals.length, l.normals.count), (48, 48, 4));
    assert_eq!((l.indices.offset, l.indices.length, l.indices.count), (96, 24, 6));
    assert_eq!(l.first_view, 0);
    assert_eq!(&packed.data[12..16], &100.0f32.to_le_bytes());
    assert_eq!(&packed.data[100..104], &1u32.to_le_bytes());
    let glb = glb_bytes(b"{}", &packed.data);
    assert!(glb.len() > 100);
    assert_eq!(&glb[0..4], b"glTF");
}

#[test]
fn meshes_without_vertices_are_left_out() {
    let empty = MeshBuffers { positions: vec![], normals: vec![], indices: vec![] };
    let packed = pack_meshes(&vec![empty, quad()]);
    assert_eq!(packed.layouts.len(), 1);
    assert_eq!(packed.layouts[0].mesh, 1);
    let none = pack_meshes(&vec![MeshBuffers { positions: vec![], normals: vec![], indices: vec![] }]);
    assert!(none.data.is_empty());
    assert!(none.layouts.is_empty());
}

#[test]
fn odd_index_count_is_padded_with_zeros() {
    let m = MeshBuffers { positions: vec![bits([1.0, 2.0, 3.0])], normals: vec![], indices: vec![] };
    let two = pack_meshes(&vec![m, quad()]);
    assert_eq!(two.layouts[1].first_view, 3);
    assert_eq!(two.layouts[1].positions.offset, 12);
    assert_eq!(two.data.len() % 4, 0);
}

#[test]
fn meshes_without_vertices_change_nothing() {
    let empty = || MeshBuffers { positions: vec![], normals: vec![], indices: vec![] };
    let a = pack_meshes(&vec![empty(), quad(), empty(), quad(), empty()]);
    let b = pack_meshes(&vec![quad(), quad()]);
    assert_eq!(a.data, b.data);
    assert_eq!(a.layouts.len(), b.layouts.len());
    for (la, lb) in a.layouts.iter().zip(b.layouts.iter()) {
        assert_eq!(la.first_view, lb.first_view);
        assert_eq!(la.positions, lb.positions);
        assert_eq!(la.normals, lb.normals);
        assert_eq!(la.indices, lb.indices);
    }
    assert_eq!((a.layouts[0].mesh, a.layouts[1].mesh), (1, 3));
    let none = pack_meshes(&vec![empty(), empty()]);
    let glb = glb_bytes(b"{}", &none.data);
    assert_eq!(glb.len(), 24);
    assert_eq!(u32_at(&glb, 8), 24);
}
