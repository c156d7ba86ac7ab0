//! Triangle topology of the generated meshes: which vertices a road strip or a
//! building shell has, and how its triangles index them. Vertex coordinates are
//! computed by the caller; the topology depends only on the counts given here.
use vstd::prelude::*;

verus! {

/// Number of vertices of a road strip: two (left and right edge) per point whose
/// direction is defined. `kept[i]` tells whether point `i` has a defined direction.
pub open spec fn strip_vertex_count(kept: Seq<bool>) -> nat
    decreases kept.len(),
{
    if kept.len() == 0 {
        0
    } else {
        strip_vertex_count(kept.drop_last()) + if kept.last() { 2nat } else { 0nat }
    }
}

/// The two triangles joining the previous edge pair (`base - 2`, `base - 1`) to the
/// new one (`base`, `base + 1`).
pub open spec fn strip_quad(base: int) -> Seq<u32> {
    seq![
        (base - 2) as u32,
        base as u32,
        (base - 1) as u32,
        (base - 1) as u32,
        base as u32,
        (base + 1) as u32,
    ]
}

/// Triangle indices of a road strip: every kept point after the first point of the
/// road adds a quad back to the previous edge pair.
pub open spec fn strip_indices(kept: Seq<bool>) -> Seq<u32>
    decreases kept.len(),
{
    if kept.len() == 0 {
        Seq::empty()
    } else {
        let prev = kept.drop_last();
        strip_indices(prev) + if kept.last() && prev.len() > 0 {
            strip_quad(strip_vertex_count(prev) as int)
        } else {
            Seq::empty()
        }
    }
}

/// Whether a strip can be built: a point after the first can only be kept when the
/// first point is kept too (otherwise its quad would reach before vertex 0).
pub open spec fn strip_buildable(kept: Seq<bool>) -> bool {
    forall|i: int| 0 < i < kept.len() && #[trigger] kept[i] ==> kept[0]
}

/// Topology of a road strip or building shell.
pub struct Topology {
    pub vertex_count: usize,
    pub indices: Vec<u32>,
}

/// The topology of a road strip with one entry of `kept` per road point, telling
/// whether that point has a defined direction and so gets an edge pair. Roads with
/// fewer than two points have no geometry at all.
pub fn road_strip_topology(kept: &Vec<bool>) -> (res: Topology)
    requires
        strip_buildable(kept@),
        2 * kept@.len() + 1 <= u32::MAX,
    ensures
        kept@.len() < 2 ==> res.vertex_count == 0 && res.indices@.len() == 0,
        kept@.len() >= 2 ==> res.vertex_count == strip_vertex_count(kept@)
            && res.indices@ == strip_indices(kept@),
{
    if kept.len() < 2 {
        return Topology { vertex_count: 0, indices: Vec::new() };
    }
    let mut count: usize = 0;
    let mut indices: Vec<u32> = Vec::new();
    let n = kept.len();
    for i in 0..n
        invariant
            n == kept@.len(),
            2 * n + 1 <= u32::MAX,
            strip_buildable(kept@),
            count == strip_vertex_count(kept@.take(i as int)),
            count <= 2 * i,
            i > 0 && kept@[0] ==> count >= 2,
            indices@ == strip_indices(kept@.take(i as int)),
    {
        proof {
            assert(kept@.take(i + 1).drop_last() =~= kept@.take(i as int));
        }
        if kept[i] {
            let base = count as u32;
            if i > 0 {
                assert(kept@[0]);
                indices.push(base - 2);
                indices.push(base);
                indices.push(base - 1);
                indices.push(base - 1);
                indices.push(base);
                indices.push(base + 1);
            }
            count = count + 2;
        }
        proof {
            assert(kept@.take(i + 1)[0] == kept@[0]);
            assert(indices@ =~= strip_indices(kept@.take(i + 1)));
        }
    }
    assert(kept@.take(n as int) =~= kept@);
    Topology { vertex_count: count, indices }
}

/// Strip laws: two vertices per kept point, whole triangles only, and every index
/// names one of the strip's vertices.
pub proof fn lemma_strip_well_formed(kept: Seq<bool>)
    requires
        strip_buildable(kept),
    ensures
        strip_vertex_count(kept) == 2 * kept.filter(|b: bool| b).len(),
        strip_indices(kept).len() % 3 == 0,
        forall|j: int| 0 <= j < strip_indices(kept).len() ==>
            (#[trigger] strip_indices(kept)[j]) < strip_vertex_count(kept),
        kept.len() > 0 && kept[0] ==> strip_vertex_count(kept) >= 2,
    decreases kept.len(),
{
    reveal_with_fuel(Seq::filter, 1);
    if kept.len() > 0 {
        let prev = kept.drop_last();
        assert(strip_buildable(prev)) by {
            assert forall|i: int| 0 < i < prev.len() && #[trigger] prev[i] implies prev[0] by {
                assert(kept[i] == prev[i]);
            }
        }
        lemma_strip_well_formed(prev);
        if prev.len() > 0 {
            assert(prev[0] == kept[0]);
        }
        let si = strip_indices(kept);
        let ps = strip_indices(prev);
        let b = strip_vertex_count(prev) as int;
        if kept.last() && prev.len() > 0 {
            assert(kept[kept.len() - 1]);
            assert(kept[0]);
            assert(b >= 2);
            assert forall|j: int| 0 <= j < si.len() implies (#[trigger] si[j]) < strip_vertex_count(kept) by {
                if j < ps.len() {
                    assert(si[j] == ps[j]);
                }
            }
        } else {
            assert forall|j: int| 0 <= j < si.len() implies (#[trigger] si[j]) < strip_vertex_count(kept) by {
                assert(si[j] == ps[j]);
            }
        }
    }
}

/// The two triangles of wall number `i`: its vertices are `4i` (bottom of the first
/// corner), `4i + 1` (bottom of the next), `4i + 2` (top of the next), `4i + 3` (top of the first).
pub open spec fn wall_quad(i: int) -> Seq<u32> {
    seq![
        (4 * i) as u32,
        (4 * i + 1) as u32,
        (4 * i + 2) as u32,
        (4 * i) as u32,
        (4 * i + 2) as u32,
        (4 * i + 3) as u32,
    ]
}

/// Triangles of the first `k` walls.
pub open spec fn wall_indices(k: nat) -> Seq<u32>
    decreases k,
{
    if k == 0 {
        Seq::empty()
    } else {
        wall_indices((k - 1) as nat) + wall_quad(k - 1)
    }
}

/// The first `k` triangles of the roof fan over the roof vertices `rb`, `rb + 1`, ...:
/// triangle `t` (from 1) is `rb`, `rb + t`, `rb + t + 1`.
pub open spec fn roof_fan(rb: int, k: nat) -> Seq<u32>
    decreases k,
{
    if k == 0 {
        Seq::empty()
    } else {
        roof_fan(rb, (k - 1) as nat) + seq![rb as u32, (rb + k) as u32, (rb + k + 1) as u32]
    }
}

/// Triangle indices of a building shell with `n` footprint corners: one quad per
/// wall, then a fan over the `n` roof vertices.
pub open spec fn shell_indices(n: nat) -> Seq<u32> {
    wall_indices(n) + roof_fan(4 * n as int, (n - 2) as nat)
}

/// The topology of a building shell over a footprint of `n` corners: four vertices
/// per wall and one per roof corner. Footprints of fewer than three corners have no
/// geometry.
pub fn building_shell_topology(n: usize) -> (res: Topology)
    requires
        5 * n <= u32::MAX,
    ensures
        n < 3 ==> res.vertex_count == 0 && res.indices@.len() == 0,
        n >= 3 ==> res.vertex_count == 5 * n && res.indices@ == shell_indices(n as nat),
{
    if n < 3 {
        return Topology { vertex_count: 0, indices: Vec::new() };
    }
    let mut indices: Vec<u32> = Vec::new();
    for i in 0..n
        invariant
            5 * n <= u32::MAX,
            indices@ == wall_indices(i as nat),
    {
        let base = (4 * i) as u32;
        indices.push(base);
        indices.push(base + 1);
        indices.push(base + 2);
        indices.push(base);
        indices.push(base + 2);
        indices.push(base + 3);
        assert(indices@ =~= wall_indices((i + 1) as nat));
    }
    let roof_base = (4 * n) as u32;
    let ghost walls = indices@;
    let last = (n - 1) as u32;
    for t in 1..last
        invariant
            5 * n <= u32::MAX,
            n >= 3,
            last == n - 1,
            roof_base == 4 * n,
            walls == wall_indices(n as nat),
            indices@ == walls + roof_fan(4 * n as int, (t - 1) as nat),
    {
        indices.push(roof_base);
        indices.push(roof_base + t);
        indices.push(roof_base + t + 1);
        assert(indices@ =~= walls + roof_fan(4 * n as int, t as nat));
    }
    Topology { vertex_count: 5 * n, indices }
}

/// Shell laws: nine indices per corner less six, and every index names one of the
/// `5n` vertices.
pub proof fn lemma_shell_well_formed(n: nat)
    requires
        n >= 3,
        5 * n <= u32::MAX,
    ensures
        shell_indices(n).len() == 9 * n - 6,
        forall|j: int| 0 <= j < shell_indices(n).len() ==> (#[trigger] shell_indices(n)[j]) < 5 * n,
{
    lemma_walls(n, n);
    lemma_fan(4 * n, (n - 2) as nat, n);
    let w = wall_indices(n);
    let r = roof_fan(4 * n as int, (n - 2) as nat);
    assert forall|j: int| 0 <= j < shell_indices(n).len() implies (#[trigger] shell_indices(n)[j]) < 5 * n by {
        if j < w.len() {
            assert(shell_indices(n)[j] == w[j]);
        } else {
            assert(shell_indices(n)[j] == r[j - w.len()]);
        }
    }
}

proof fn lemma_walls(k: nat, n: nat)
    requires
        k <= n,
        5 * n <= u32::MAX,
    ensures
        wall_indices(k).len() == 6 * k,
        forall|j: int| 0 <= j < wall_indices(k).len() ==> (#[trigger] wall_indices(k)[j]) < 4 * k,
    decreases k,
{
    if k > 0 {
        lemma_walls((k - 1) as nat, n);
        let p = wall_indices((k - 1) as nat);
        assert forall|j: int| 0 <= j < wall_indices(k).len() implies (#[trigger] wall_indices(k)[j]) < 4 * k by {
            if j < p.len() {
                assert(wall_indices(k)[j] == p[j]);
            }
        }
    }
}

proof fn lemma_fan(rb: nat, k: nat, n: nat)
    requires
        rb == 4 * n,
        k + 2 <= n,
        5 * n <= u32::MAX,
    ensures
        roof_fan(rb as int, k).len() == 3 * k,
        forall|j: int| 0 <= j < roof_fan(rb as int, k).len() ==> (#[trigger] roof_fan(rb as int, k)[j]) < 5 * n,
    decreases k,
{
    if k > 0 {
        lemma_fan(rb, (k - 1) as nat, n);
        let p = roof_fan(rb as int, (k - 1) as nat);
        assert forall|j: int| 0 <= j < roof_fan(rb as int, k).len() implies
            (#[trigger] roof_fan(rb as int, k)[j]) < 5 * n by {
            if j < p.len() {
                assert(roof_fan(rb as int, k)[j] == p[j]);
            }
        }
    }
}


/// The strip is a chain of quads: quad number `q` joins the edge pair of the kept
/// point before it (vertices `2q`, `2q + 1`) to the next kept point's pair (`2q + 2`,
/// `2q + 3`), as the triangles (`2q`, `2q + 2`, `2q + 1`) and (`2q + 1`, `2q + 2`,
/// `2q + 3`). There is one quad per kept point after the first.
pub proof fn lemma_strip_quads(kept: Seq<bool>)
    requires
        strip_buildable(kept),
        2 * kept.len() + 1 <= u32::MAX,
    ensures
        strip_vertex_count(kept) % 2 == 0,
        strip_vertex_count(kept) <= 2 * kept.len(),
        strip_indices(kept).len() == if strip_vertex_count(kept) >= 2 {
            3 * (strip_vertex_count(kept) - 2)
        } else {
            0
        },
        forall|j: int| 0 <= j < strip_indices(kept).len() ==> #[trigger] strip_indices(kept)[j] == 2 * (j / 6) + (
            if j % 6 == 0 { 0int } else if j % 6 == 1 { 2int } else if j % 6 == 2 { 1int }
            else if j % 6 == 3 { 1int } else if j % 6 == 4 { 2int } else { 3int }),
    decreases kept.len(),
{
    if kept.len() > 0 {
        let prev = kept.drop_last();
        assert(strip_buildable(prev)) by {
            assert forall|i: int| 0 < i < prev.len() && #[trigger] prev[i] implies prev[0] by {
                assert(kept[i] == prev[i]);
            }
        }
        lemma_strip_quads(prev);
        lemma_strip_well_formed(prev);
        if prev.len() > 0 {
            assert(prev[0] == kept[0]);
        }
        let si = strip_indices(kept);
        let ps = strip_indices(prev);
        let b = strip_vertex_count(prev) as int;
        if kept.last() && prev.len() > 0 {
            assert(kept[kept.len() - 1]);
            assert(kept[0]);
            assert(b >= 2);
            let c = b / 2;
            assert(b == 2 * c);
            assert(ps.len() == 6 * (c - 1));
            assert forall|j: int| 0 <= j < si.len() implies #[trigger] si[j] == 2 * (j / 6) + (
                if j % 6 == 0 { 0int } else if j % 6 == 1 { 2int } else if j % 6 == 2 { 1int }
                else if j % 6 == 3 { 1int } else if j % 6 == 4 { 2int } else { 3int }) by {
                if j < ps.len() {
                    assert(si[j] == ps[j]);
                } else {
                    let r = j - ps.len();
                    assert(0 <= r < 6);
                    assert(j / 6 == c - 1 && j % 6 == r) by {
                        assert(j == 6 * (c - 1) + r);
                    }
                    assert(si[j] == strip_quad(b)[r]);
                }
            }
        } else {
            assert forall|j: int| 0 <= j < si.len() implies #[trigger] si[j] == 2 * (j / 6) + (
                if j % 6 == 0 { 0int } else if j % 6 == 1 { 2int } else if j % 6 == 2 { 1int }
                else if j % 6 == 3 { 1int } else if j % 6 == 4 { 2int } else { 3int }) by {
                assert(si[j] == ps[j]);
            }
        }
    }
}

/// The shell is walls then a roof fan: wall `i` of `n` is the triangles
/// (`4i`, `4i + 1`, `4i + 2`) and (`4i`, `4i + 2`, `4i + 3`), and roof triangle `t`
/// is (`4n`, `4n + t + 1`, `4n + t + 2`).
pub proof fn lemma_shell_triangles(n: nat)
    requires
        n >= 3,
        5 * n <= u32::MAX,
    ensures
        shell_indices(n).len() == 6 * n + 3 * (n - 2),
        forall|j: int| 0 <= j < 6 * n ==> #[trigger] shell_indices(n)[j] == 4 * (j / 6) + (
            if j % 6 == 0 { 0int } else if j % 6 == 1 { 1int } else if j % 6 == 2 { 2int }
            else if j % 6 == 3 { 0int } else if j % 6 == 4 { 2int } else { 3int }),
        forall|j: int| 6 * n <= j < shell_indices(n).len() ==> #[trigger] shell_indices(n)[j] == 4 * n + (
            if (j - 6 * n) % 3 == 0 { 0int } else if (j - 6 * n) % 3 == 1 { (j - 6 * n) / 3 + 1 }
            else { (j - 6 * n) / 3 + 2 }),
{
    lemma_wall_formula(n, n);
    lemma_fan_formula(4 * n, (n - 2) as nat, n);
    let w = wall_indices(n);
    let r = roof_fan(4 * n as int, (n - 2) as nat);
    assert forall|j: int| 0 <= j < 6 * n implies #[trigger] shell_indices(n)[j] == 4 * (j / 6) + (
        if j % 6 == 0 { 0int } else if j % 6 == 1 { 1int } else if j % 6 == 2 { 2int }
        else if j % 6 == 3 { 0int } else if j % 6 == 4 { 2int } else { 3int }) by {
        assert(shell_indices(n)[j] == w[j]);
    }
    assert forall|j: int| 6 * n <= j < shell_indices(n).len() implies #[trigger] shell_indices(n)[j] == 4 * n + (
        if (j - 6 * n) % 3 == 0 { 0int } else if (j - 6 * n) % 3 == 1 { (j - 6 * n) / 3 + 1 }
        else { (j - 6 * n) / 3 + 2 }) by {
        assert(shell_indices(n)[j] == r[j - w.len()]);
    }
}

proof fn lemma_wall_formula(k: nat, n: nat)
    requires
        k <= n,
        5 * n <= u32::MAX,
    ensures
        wall_indices(k).len() == 6 * k,
        forall|j: int| 0 <= j < 6 * k ==> #[trigger] wall_indices(k)[j] == 4 * (j / 6) + (
            if j % 6 == 0 { 0int } else if j % 6 == 1 { 1int } else if j % 6 == 2 { 2int }
            else if j % 6 == 3 { 0int } else if j % 6 == 4 { 2int } else { 3int }),
    decreases k,
{
    if k > 0 {
        lemma_wall_formula((k - 1) as nat, n);
        let p = wall_indices((k - 1) as nat);
        assert forall|j: int| 0 <= j < 6 * k implies #[trigger] wall_indices(k)[j] == 4 * (j / 6) + (
            if j % 6 == 0 { 0int } else if j % 6 == 1 { 1int } else if j % 6 == 2 { 2int }
            else if j % 6 == 3 { 0int } else if j % 6 == 4 { 2int } else { 3int }) by {
            if j < p.len() {
                assert(wall_indices(k)[j] == p[j]);
            } else {
                let r = j - 6 * (k - 1);
                assert(j / 6 == k - 1 && j % 6 == r) by {
                    assert(j == 6 * (k - 1) + r);
                }
                assert(wall_indices(k)[j] == wall_quad(k - 1)[r]);
            }
        }
    }
}

proof fn lemma_fan_formula(rb: nat, k: nat, n: nat)
    requires
        rb == 4 * n,
        k + 2 <= n,
        5 * n <= u32::MAX,
    ensures
        roof_fan(rb as int, k).len() == 3 * k,
        forall|j: int| 0 <= j < 3 * k ==> #[trigger] roof_fan(rb as int, k)[j] == rb + (
            if j % 3 == 0 { 0int } else if j % 3 == 1 { j / 3 + 1 } else { j / 3 + 2 }),
    decreases k,
{
    if k > 0 {
        lemma_fan_formula(rb, (k - 1) as nat, n);
        let p = roof_fan(rb as int, (k - 1) as nat);
        assert forall|j: int| 0 <= j < 3 * k implies #[trigger] roof_fan(rb as int, k)[j] == rb + (
            if j % 3 == 0 { 0int } else if j % 3 == 1 { j / 3 + 1 } else { j / 3 + 2 }) by {
            if j < p.len() {
                assert(roof_fan(rb as int, k)[j] == p[j]);
            } else {
                let r = j - 3 * (k - 1);
                assert(j / 3 == k - 1 && j % 3 == r) by {
                    assert(j == 3 * (k - 1) + r);
                }
            }
        }
    }
}

} // verus!
