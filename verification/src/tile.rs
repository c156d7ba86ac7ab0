//! Tiles: the grid cells that the world is cut into, and the part of the lane
//! graph that each tile carries.
use vstd::prelude::*;
use crate::lane_graph::{LaneNode, LaneEdge, TrafficGraph, graph_wf};
use std::collections::HashMap;

verus! {

/// A tile's position in the grid.
#[derive(Debug, Clone, Copy, PartialEq, Eq, Structural)]
pub struct TileCoord {
    pub x: i32,
    pub y: i32,
}

/// The number of `true` entries of `s`.
pub open spec fn count_true(s: Seq<bool>) -> nat
    decreases s.len(),
{
    if s.len() == 0 {
        0
    } else {
        count_true(s.drop_last()) + if s.last() { 1nat } else { 0nat }
    }
}

/// The new id of node `i` when only the nodes marked in `keep` are kept: the number
/// of kept nodes before it.
pub open spec fn new_node_id(keep: Seq<bool>, i: int) -> nat {
    count_true(keep.take(i))
}

/// The kept nodes among the first `k`, renumbered from zero.
pub open spec fn kept_nodes<S>(nodes: Seq<LaneNode<S>>, keep: Seq<bool>, k: int) -> Seq<LaneNode<S>>
    decreases k,
{
    if k <= 0 {
        Seq::empty()
    } else {
        let prev = kept_nodes(nodes, keep, k - 1);
        let n = nodes[k - 1];
        if keep[k - 1] {
            prev.push(LaneNode { id: prev.len() as u64, x: n.x, z: n.z, y: n.y })
        } else {
            prev
        }
    }
}

/// Where the kept nodes among the first `k` went: each kept node's `id` maps to its
/// new id, and where two kept nodes share an `id` the later one wins.
pub open spec fn kept_id_map<S>(nodes: Seq<LaneNode<S>>, keep: Seq<bool>, k: int) -> Map<u64, u64>
    decreases k,
{
    if k <= 0 {
        Map::empty()
    } else {
        let prev = kept_id_map(nodes, keep, k - 1);
        if keep[k - 1] {
            prev.insert(nodes[k - 1].id, new_node_id(keep, k - 1) as u64)
        } else {
            prev
        }
    }
}

/// Edge `e` of the whole graph, renumbered as edge `k` of a tile's graph whose node
/// ids were moved as `ids` says.
pub open spec fn renumbered_edge<S>(e: LaneEdge<S>, ids: Map<u64, u64>, k: int) -> LaneEdge<S> {
    LaneEdge {
        id: k as u64,
        from: ids[e.from],
        to: ids[e.to],
        speed_limit_kmh: e.speed_limit_kmh,
        lane_index: e.lane_index,
        road_id: e.road_id,
        layer: e.layer,
        length: e.length,
    }
}

/// The edges among the first `k` whose two ends were kept (are keys of `ids`),
/// renumbered from zero and pointing at the new node ids.
pub open spec fn kept_edges<S>(edges: Seq<LaneEdge<S>>, ids: Map<u64, u64>, k: int) -> Seq<LaneEdge<S>>
    decreases k,
{
    if k <= 0 {
        Seq::empty()
    } else {
        let prev = kept_edges(edges, ids, k - 1);
        let e = edges[k - 1];
        if ids.contains_key(e.from) && ids.contains_key(e.to) {
            prev.push(renumbered_edge(e, ids, prev.len() as int))
        } else {
            prev
        }
    }
}

proof fn lemma_count_true_take(s: Seq<bool>, i: int)
    requires
        0 <= i < s.len(),
    ensures
        count_true(s.take(i + 1)) == count_true(s.take(i)) + if s[i] { 1nat } else { 0nat },
        count_true(s.take(i)) <= i,
{
    assert(s.take(i + 1).drop_last() =~= s.take(i));
    lemma_count_true_bound(s.take(i));
}

proof fn lemma_count_true_bound(s: Seq<bool>)
    ensures
        count_true(s) <= s.len(),
    decreases s.len(),
{
    if s.len() > 0 {
        lemma_count_true_bound(s.drop_last());
    }
}

/// The new id of a kept node is below the number of kept nodes.
pub proof fn lemma_new_node_id_bound(keep: Seq<bool>, i: int)
    requires
        0 <= i < keep.len(),
        keep[i],
    ensures
        new_node_id(keep, i) < count_true(keep),
{
    lemma_count_true_monotone(keep, i + 1);
    lemma_count_true_take(keep, i);
}

proof fn lemma_count_true_monotone(s: Seq<bool>, i: int)
    requires
        0 <= i <= s.len(),
    ensures
        count_true(s.take(i)) <= count_true(s),
    decreases s.len() - i,
{
    if i < s.len() {
        lemma_count_true_monotone(s, i + 1);
        lemma_count_true_take(s, i);
    } else {
        assert(s.take(i) =~= s);
    }
}

proof fn lemma_kept_nodes_len<S>(nodes: Seq<LaneNode<S>>, keep: Seq<bool>, k: int)
    requires
        0 <= k <= keep.len(),
    ensures
        kept_nodes(nodes, keep, k).len() == count_true(keep.take(k)),
    decreases k,
{
    if k > 0 {
        lemma_kept_nodes_len(nodes, keep, k - 1);
        lemma_count_true_take(keep, k - 1);
    } else {
        assert(keep.take(0) =~= Seq::<bool>::empty());
    }
}

proof fn lemma_kept_id_map_bound<S>(nodes: Seq<LaneNode<S>>, keep: Seq<bool>, k: int)
    requires
        0 <= k <= keep.len(),
        keep.len() <= u64::MAX,
    ensures
        forall|id: u64| #[trigger] kept_id_map(nodes, keep, k).contains_key(id)
            ==> kept_id_map(nodes, keep, k)[id] < count_true(keep.take(k)),
    decreases k,
{
    if k > 0 {
        lemma_kept_id_map_bound(nodes, keep, k - 1);
        lemma_count_true_take(keep, k - 1);
        let prev = kept_id_map(nodes, keep, k - 1);
        let cur = kept_id_map(nodes, keep, k);
        assert forall|id: u64| #[trigger] cur.contains_key(id) implies cur[id] < count_true(keep.take(k)) by {
            if keep[k - 1] && id == nodes[k - 1].id {
                assert(cur[id] == new_node_id(keep, k - 1) as u64);
            } else {
                assert(prev.contains_key(id));
            }
        }
    }
}

/// The part of the lane graph that a tile carries: the nodes marked in `keep`, in
/// order and renumbered from zero, and the edges whose two ends name kept nodes (by
/// their `id`), in order, renumbered and pointing at the renumbered nodes. Signal
/// controllers are not carried.
pub fn filter_traffic_graph<S: Copy>(graph: &TrafficGraph<S>, keep: &Vec<bool>) -> (res: TrafficGraph<S>)
    requires
        keep@.len() == graph.nodes@.len(),
    ensures
        res.nodes@ == kept_nodes(graph.nodes@, keep@, graph.nodes@.len() as int),
        res.edges@ == kept_edges(
            graph.edges@,
            kept_id_map(graph.nodes@, keep@, graph.nodes@.len() as int),
            graph.edges@.len() as int,
        ),
        res.signals@.len() == 0,
        res.wf(),
{
    broadcast use vstd::std_specs::hash::group_hash_axioms;
    let mut result: TrafficGraph<S> = TrafficGraph::new();
    let mut new_ids: HashMap<u64, u64> = HashMap::new();
    let n = graph.nodes.len();
    for i in 0..n
        invariant
            n == graph.nodes@.len(),
            keep@.len() == n,
            result.wf(),
            result.edges@.len() == 0,
            result.signals@.len() == 0,
            new_ids@ == kept_id_map(graph.nodes@, keep@, i as int),
            result.nodes@ == kept_nodes(graph.nodes@, keep@, i as int),
            result.nodes@.len() == count_true(keep@.take(i as int)),
    {
        proof {
            lemma_count_true_take(keep@, i as int);
        }
        if keep[i] {
            let node = graph.nodes[i];
            let id = result.add_node(node.x, node.z, node.y);
            new_ids.insert(node.id, id);
        }
    }
    let ghost ids = kept_id_map(graph.nodes@, keep@, n as int);
    proof {
        lemma_kept_id_map_bound(graph.nodes@, keep@, n as int);
        assert(keep@.take(n as int) =~= keep@);
    }
    let m = graph.edges.len();
    for j in 0..m
        invariant
            n == graph.nodes@.len(),
            m == graph.edges@.len(),
            keep@.len() == n,
            result.wf(),
            result.signals@.len() == 0,
            new_ids@ == ids,
            ids == kept_id_map(graph.nodes@, keep@, n as int),
            forall|id: u64| #[trigger] ids.contains_key(id) ==> ids[id] < result.nodes@.len(),
            result.nodes@ == kept_nodes(graph.nodes@, keep@, n as int),
            result.nodes@.len() == count_true(keep@),
            result.edges@ == kept_edges(graph.edges@, ids, j as int),
    {
        let e = graph.edges[j];
        let from = new_ids.get(&e.from);
        let to = new_ids.get(&e.to);
        match (from, to) {
            (Some(f), Some(t)) => {
                let f: u64 = *f;
                let t: u64 = *t;
                result.add_edge(f, t, e.speed_limit_kmh, e.lane_index, e.road_id, e.layer, e.length);
            },
            _ => {},
        }
    }
    result
}

/// A tile's graph holds every kept node, at its new id and with its position and
/// height unchanged, and no other node.
pub proof fn lemma_kept_nodes<S>(nodes: Seq<LaneNode<S>>, keep: Seq<bool>)
    requires
        keep.len() == nodes.len(),
    ensures
        kept_nodes(nodes, keep, nodes.len() as int).len() == count_true(keep),
        forall|i: int| 0 <= i < nodes.len() && #[trigger] keep[i] ==> {
            let t = kept_nodes(nodes, keep, nodes.len() as int)[new_node_id(keep, i) as int];
            t.x == nodes[i].x && t.z == nodes[i].z && t.y == nodes[i].y
        },
{
    lemma_kept_nodes_prefix(nodes, keep, nodes.len() as int);
    assert(keep.take(nodes.len() as int) =~= keep);
}

proof fn lemma_kept_nodes_prefix<S>(nodes: Seq<LaneNode<S>>, keep: Seq<bool>, k: int)
    requires
        keep.len() == nodes.len(),
        0 <= k <= nodes.len(),
    ensures
        kept_nodes(nodes, keep, k).len() == count_true(keep.take(k)),
        forall|i: int| 0 <= i < k && #[trigger] keep[i] ==> {
            let t = kept_nodes(nodes, keep, k)[new_node_id(keep, i) as int];
            t.x == nodes[i].x && t.z == nodes[i].z && t.y == nodes[i].y
        },
    decreases k,
{
    if k > 0 {
        lemma_kept_nodes_prefix(nodes, keep, k - 1);
        lemma_count_true_take(keep, k - 1);
        let prev = kept_nodes(nodes, keep, k - 1);
        assert forall|i: int| 0 <= i < k && #[trigger] keep[i] implies {
            let t = kept_nodes(nodes, keep, k)[new_node_id(keep, i) as int];
            t.x == nodes[i].x && t.z == nodes[i].z && t.y == nodes[i].y
        } by {
            if i < k - 1 {
                lemma_count_true_take(keep, i);
                lemma_count_true_monotone(keep.take(k - 1), i + 1);
                assert(keep.take(k - 1).take(i + 1) =~= keep.take(i + 1));
                assert(kept_nodes(nodes, keep, k)[new_node_id(keep, i) as int] == prev[new_node_id(keep, i) as int]);
            }
        }
    } else {
        assert(keep.take(0) =~= Seq::<bool>::empty());
    }
}

/// A tile's graph holds, in order, exactly the edges of the whole graph whose two
/// ends name kept nodes, each renumbered: every edge of the tile comes from such an edge,
/// and every such edge is in the tile.
pub proof fn lemma_kept_edges<S>(edges: Seq<LaneEdge<S>>, ids: Map<u64, u64>, k: int)
    requires
        0 <= k <= edges.len(),
    ensures
        forall|t: int| 0 <= t < kept_edges(edges, ids, k).len() ==> exists|j: int|
            0 <= j < k && ids.contains_key(edges[j].from) && ids.contains_key(edges[j].to)
                && #[trigger] kept_edges(edges, ids, k)[t] == renumbered_edge(edges[j], ids, t),
        forall|j: int| 0 <= j < k && ids.contains_key((#[trigger] edges[j]).from) && ids.contains_key(edges[j].to) ==>
            exists|t: int| 0 <= t < kept_edges(edges, ids, k).len()
                && kept_edges(edges, ids, k)[t] == renumbered_edge(edges[j], ids, t),
    decreases k,
{
    if k > 0 {
        lemma_kept_edges(edges, ids, k - 1);
        let prev = kept_edges(edges, ids, k - 1);
        let cur = kept_edges(edges, ids, k);
        let e = edges[k - 1];
        assert forall|t: int| 0 <= t < cur.len() implies exists|j: int|
            0 <= j < k && ids.contains_key(edges[j].from) && ids.contains_key(edges[j].to)
                && #[trigger] cur[t] == renumbered_edge(edges[j], ids, t) by {
            if t < prev.len() {
                assert(cur[t] == prev[t]);
                let j = choose|j: int| 0 <= j < k - 1 && ids.contains_key(edges[j].from) && ids.contains_key(edges[j].to)
                    && #[trigger] prev[t] == renumbered_edge(edges[j], ids, t);
            } else {
                assert(cur[t] == renumbered_edge(edges[k - 1], ids, t));
            }
        }
        assert forall|j: int| 0 <= j < k && ids.contains_key((#[trigger] edges[j]).from) && ids.contains_key(edges[j].to) implies
            exists|t: int| 0 <= t < cur.len() && cur[t] == renumbered_edge(edges[j], ids, t) by {
            if j < k - 1 {
                let t = choose|t: int| 0 <= t < prev.len() && prev[t] == renumbered_edge(edges[j], ids, t);
                assert(cur[t] == prev[t]);
            } else {
                assert(cur[prev.len() as int] == renumbered_edge(edges[j], ids, prev.len() as int));
            }
        }
    }
}

/// In a well-formed graph, where every node's id is its position, a node id leads to
/// a kept node exactly when the node at that position is kept, and it leads to that
/// node's new id. So a tile carries exactly the edges whose two ends are kept.
pub proof fn lemma_kept_id_map_wf<S>(nodes: Seq<LaneNode<S>>, keep: Seq<bool>)
    requires
        keep.len() == nodes.len(),
        nodes.len() <= u64::MAX,
        forall|i: int| 0 <= i < nodes.len() ==> (#[trigger] nodes[i]).id == i,
    ensures
        forall|id: u64| #[trigger] kept_id_map(nodes, keep, nodes.len() as int).contains_key(id)
            <==> (id < nodes.len() && keep[id as int]),
        forall|i: int| 0 <= i < nodes.len() && #[trigger] keep[i]
            ==> kept_id_map(nodes, keep, nodes.len() as int)[i as u64] == new_node_id(keep, i),
{
    lemma_kept_id_map_wf_prefix(nodes, keep, nodes.len() as int);
}

proof fn lemma_kept_id_map_wf_prefix<S>(nodes: Seq<LaneNode<S>>, keep: Seq<bool>, k: int)
    requires
        keep.len() == nodes.len(),
        nodes.len() <= u64::MAX,
        0 <= k <= nodes.len(),
        forall|i: int| 0 <= i < nodes.len() ==> (#[trigger] nodes[i]).id == i,
    ensures
        forall|id: u64| #[trigger] kept_id_map(nodes, keep, k).contains_key(id)
            <==> (id < k && keep[id as int]),
        forall|i: int| 0 <= i < k && #[trigger] keep[i]
            ==> kept_id_map(nodes, keep, k)[i as u64] == new_node_id(keep, i),
    decreases k,
{
    if k > 0 {
        lemma_kept_id_map_wf_prefix(nodes, keep, k - 1);
        assert(nodes[k - 1].id == k - 1);
        lemma_count_true_take(keep, k - 1);
        let prev = kept_id_map(nodes, keep, k - 1);
        let cur = kept_id_map(nodes, keep, k);
        assert forall|id: u64| #[trigger] cur.contains_key(id) <==> (id < k && keep[id as int]) by {
            if id == k - 1 {
                assert(!prev.contains_key(id));
            } else {
                assert(cur.contains_key(id) == prev.contains_key(id));
            }
        }
        assert forall|i: int| 0 <= i < k && #[trigger] keep[i] implies cur[i as u64] == new_node_id(keep, i) by {
            if i < k - 1 {
                assert(prev.contains_key(i as u64));
                assert((i as u64) != nodes[k - 1].id);
            }
        }
    }
}

/// The tiles from `min` to `max` (both included), column by column: all `y` of the
/// first `x`, then all `y` of the next `x`, and so on.
pub open spec fn tile_grid_spec(min: TileCoord, max: TileCoord) -> Seq<TileCoord> {
    let w = if max.x >= min.x { max.x - min.x + 1 } else { 0 };
    let h = if max.y >= min.y { max.y - min.y + 1 } else { 0 };
    Seq::new((w * h) as nat, |k: int| TileCoord { x: (min.x + k / h) as i32, y: (min.y + k % h) as i32 })
}

/// The tiles in the rectangle from `min` to `max`, in the order the tiles are cut:
/// column by column, each column from its lowest `y`.
pub fn tile_grid(min: TileCoord, max: TileCoord) -> (res: Vec<TileCoord>)
    requires
        (if max.x >= min.x { max.x - min.x + 1 } else { 0int }) * (if max.y >= min.y { max.y - min.y + 1 } else { 0int }) <= usize::MAX,
    ensures
        res@ == tile_grid_spec(min, max),
{
    let mut res: Vec<TileCoord> = Vec::new();
    if max.x < min.x || max.y < min.y {
        assert(tile_grid_spec(min, max) =~= Seq::<TileCoord>::empty()) by {
            let w = if max.x >= min.x { max.x - min.x + 1 } else { 0 };
            let h = if max.y >= min.y { max.y - min.y + 1 } else { 0 };
            assert(w * h == 0) by (nonlinear_arith) requires w == 0 || h == 0;
        }
        return res;
    }
    let ghost h = max.y - min.y + 1;
    let ghost w = max.x - min.x + 1;
    let mut tx: i32 = min.x;
    loop
        invariant_except_break
            res@ == tile_grid_spec(min, max).take((tx - min.x) * h),
        invariant
            min.x <= tx <= max.x,
            min.y <= max.y,
            h == max.y - min.y + 1,
            w == max.x - min.x + 1,
            w * h <= usize::MAX,
        ensures
            res@ == tile_grid_spec(min, max).take(w * h),
        decreases max.x - tx,
    {
        let mut ty: i32 = min.y;
        loop
            invariant_except_break
                res@ == tile_grid_spec(min, max).take((tx - min.x) * h + (ty - min.y)),
            invariant
                min.x <= tx <= max.x,
                min.y <= ty <= max.y,
                h == max.y - min.y + 1,
                w == max.x - min.x + 1,
                w * h <= usize::MAX,
            ensures
                res@ == tile_grid_spec(min, max).take((tx - min.x) * h + h),
            decreases max.y - ty,
        {
            let ghost k = (tx - min.x) * h + (ty - min.y);
            proof {
                assert(k < w * h) by (nonlinear_arith)
                    requires k == (tx - min.x) * h + (ty - min.y), tx <= max.x, ty <= max.y,
                        h == max.y - min.y + 1, w == max.x - min.x + 1, min.x <= tx, min.y <= ty;
                assert(k / h == tx - min.x && k % h == ty - min.y) by (nonlinear_arith)
                    requires k == (tx - min.x) * h + (ty - min.y), 0 <= ty - min.y < h, 0 <= tx - min.x;
            }
            res.push(TileCoord { x: tx, y: ty });
            assert(res@ =~= tile_grid_spec(min, max).take(k + 1));
            if ty == max.y {
                break;
            }
            ty = ty + 1;
        }
        assert((tx - min.x) * h + h == (tx - min.x + 1) * h) by (nonlinear_arith);
        if tx == max.x {
            break;
        }
        tx = tx + 1;
    }
    assert(tile_grid_spec(min, max).len() == w * h);
    assert(res@ =~= tile_grid_spec(min, max));
    res
}

/// Every tile of the rectangle from `min` to `max` is cut exactly once: the grid
/// holds only tiles of the rectangle, tile (`x`, `y`) sits at position
/// `(x - min.x) * h + (y - min.y)` where `h` is the rectangle's height, and no tile
/// appears twice.
pub proof fn lemma_tile_grid_covers(min: TileCoord, max: TileCoord)
    requires
        min.x <= max.x,
        min.y <= max.y,
    ensures
        ({
            let g = tile_grid_spec(min, max);
            let h = max.y - min.y + 1;
            &&& g.len() == (max.x - min.x + 1) * h
            &&& forall|k: int| 0 <= k < g.len() ==>
                min.x <= (#[trigger] g[k]).x <= max.x && min.y <= g[k].y <= max.y
            &&& forall|x: i32, y: i32| min.x <= x <= max.x && min.y <= y <= max.y ==>
                #[trigger] g[(x - min.x) * h + (y - min.y)] == TileCoord { x, y }
            &&& forall|i: int, j: int| 0 <= i < j < g.len() ==> #[trigger] g[i] != #[trigger] g[j]
        }),
{
    let g = tile_grid_spec(min, max);
    let h = max.y - min.y + 1;
    let w = max.x - min.x + 1;
    assert forall|k: int| 0 <= k < g.len() implies min.x <= (#[trigger] g[k]).x <= max.x && min.y <= g[k].y <= max.y by {
        assert(0 <= k / h < w && 0 <= k % h < h) by (nonlinear_arith)
            requires 0 <= k < w * h, h > 0, w > 0;
    }
    assert forall|x: i32, y: i32| min.x <= x <= max.x && min.y <= y <= max.y implies
        #[trigger] g[(x - min.x) * h + (y - min.y)] == TileCoord { x, y } by {
        let k = (x - min.x) * h + (y - min.y);
        assert(0 <= k < w * h && k / h == x - min.x && k % h == y - min.y) by (nonlinear_arith)
            requires k == (x - min.x) * h + (y - min.y), min.x <= x <= max.x, 0 <= y - min.y < h,
                h == max.y - min.y + 1, w == max.x - min.x + 1;
    }
    assert forall|i: int, j: int| 0 <= i < j < g.len() implies #[trigger] g[i] != #[trigger] g[j] by {
        assert(i / h != j / h || i % h != j % h) by (nonlinear_arith)
            requires 0 <= i < j, h > 0;
        assert(0 <= i / h < w && 0 <= i % h < h && 0 <= j / h < w && 0 <= j % h < h) by (nonlinear_arith)
            requires 0 <= i < w * h, 0 <= j < w * h, h > 0, w > 0;
        assert(g[i].x == min.x + i / h && g[i].y == min.y + i % h);
        assert(g[j].x == min.x + j / h && g[j].y == min.y + j % h);
    }
}


/// A tile edge `te` numbered `t` renumbers whole-graph edge `e`: it is numbered `t`,
/// points at the new ids of `e`'s ends and has `e`'s lane number, road, layer,
/// speed limit and length.
pub open spec fn keeps_edge<S>(te: LaneEdge<S>, e: LaneEdge<S>, ids: Map<u64, u64>, t: int) -> bool {
    &&& te.id == t as u64
    &&& te.from == ids[e.from]
    &&& te.to == ids[e.to]
    &&& te.lane_index == e.lane_index
    &&& te.road_id == e.road_id
    &&& te.layer == e.layer
    &&& te.speed_limit_kmh == e.speed_limit_kmh
    &&& te.length == e.length
}

/// A tile's edges keep everything of the edges they come from but their numbering:
/// each tile edge `t` comes from an edge of the whole graph whose two ends were
/// kept and keeps that edge (`keeps_edge`); and every edge whose two ends were kept
/// gives such a tile edge.
pub proof fn lemma_kept_edges_attributes<S>(edges: Seq<LaneEdge<S>>, ids: Map<u64, u64>, k: int)
    requires
        0 <= k <= edges.len(),
    ensures
        forall|t: int| 0 <= t < kept_edges(edges, ids, k).len() ==> exists|j: int|
            0 <= j < k && ids.contains_key(edges[j].from) && ids.contains_key(edges[j].to)
                && keeps_edge(#[trigger] kept_edges(edges, ids, k)[t], edges[j], ids, t),
        forall|j: int| 0 <= j < k && ids.contains_key((#[trigger] edges[j]).from) && ids.contains_key(edges[j].to)
            ==> exists|t: int| 0 <= t < kept_edges(edges, ids, k).len()
                && keeps_edge(kept_edges(edges, ids, k)[t], edges[j], ids, t),
    decreases k,
{
    if k > 0 {
        lemma_kept_edges_attributes(edges, ids, k - 1);
        let prev = kept_edges(edges, ids, k - 1);
        let cur = kept_edges(edges, ids, k);
        assert forall|t: int| 0 <= t < cur.len() implies exists|j: int|
            0 <= j < k && ids.contains_key(edges[j].from) && ids.contains_key(edges[j].to)
                && keeps_edge(#[trigger] cur[t], edges[j], ids, t) by {
            if t < prev.len() {
                assert(cur[t] == prev[t]);
                let j = choose|j: int| 0 <= j < k - 1 && ids.contains_key(edges[j].from) && ids.contains_key(edges[j].to)
                    && keeps_edge(#[trigger] prev[t], edges[j], ids, t);
            } else {
                assert(cur[t] == renumbered_edge(edges[k - 1], ids, t));
                assert(keeps_edge(cur[t], edges[k - 1], ids, t));
            }
        }
        assert forall|j: int| 0 <= j < k && ids.contains_key((#[trigger] edges[j]).from) && ids.contains_key(edges[j].to)
            implies exists|t: int| 0 <= t < cur.len() && keeps_edge(cur[t], edges[j], ids, t) by {
            if j < k - 1 {
                let t = choose|t: int| 0 <= t < prev.len() && keeps_edge(prev[t], edges[j], ids, t);
                assert(cur[t] == prev[t]);
            } else {
                let t = prev.len() as int;
                assert(cur[t] == renumbered_edge(edges[j], ids, t));
                assert(keeps_edge(cur[t], edges[j], ids, t));
            }
        }
    }
}


/// Node ids lead to the last kept node that carries them: an id is mapped exactly
/// when some kept node among the first `k` carries it, and then it leads to the new
/// id of such a node after which no kept node carries it.
pub proof fn lemma_kept_id_map_last<S>(nodes: Seq<LaneNode<S>>, keep: Seq<bool>, k: int)
    requires
        0 <= k <= keep.len(),
        keep.len() == nodes.len(),
    ensures
        forall|id: u64| #[trigger] kept_id_map(nodes, keep, k).contains_key(id) <==>
            exists|i: int| 0 <= i < k && keep[i] && (#[trigger] nodes[i]).id == id,
        forall|id: u64| #[trigger] kept_id_map(nodes, keep, k).contains_key(id) ==>
            exists|i: int| 0 <= i < k && keep[i] && (#[trigger] nodes[i]).id == id
                && kept_id_map(nodes, keep, k)[id] == new_node_id(keep, i) as u64
                && forall|i2: int| i < i2 < k && keep[i2] ==> (#[trigger] nodes[i2]).id != id,
    decreases k,
{
    if k > 0 {
        lemma_kept_id_map_last(nodes, keep, k - 1);
        let prev = kept_id_map(nodes, keep, k - 1);
        let cur = kept_id_map(nodes, keep, k);
        assert forall|id: u64| #[trigger] cur.contains_key(id) <==>
            exists|i: int| 0 <= i < k && keep[i] && (#[trigger] nodes[i]).id == id by {
            if exists|i: int| 0 <= i < k && keep[i] && (#[trigger] nodes[i]).id == id {
                let i = choose|i: int| 0 <= i < k && keep[i] && (#[trigger] nodes[i]).id == id;
                if i < k - 1 {
                    assert(prev.contains_key(id));
                }
            }
            if cur.contains_key(id) && !(keep[k - 1] && nodes[k - 1].id == id) {
                assert(prev.contains_key(id));
            }
        }
        assert forall|id: u64| #[trigger] cur.contains_key(id) implies
            exists|i: int| 0 <= i < k && keep[i] && (#[trigger] nodes[i]).id == id
                && cur[id] == new_node_id(keep, i) as u64
                && forall|i2: int| i < i2 < k && keep[i2] ==> (#[trigger] nodes[i2]).id != id by {
            if keep[k - 1] && nodes[k - 1].id == id {
                assert(cur[id] == new_node_id(keep, k - 1) as u64);
            } else {
                assert(prev.contains_key(id));
                let i = choose|i: int| 0 <= i < k - 1 && keep[i] && (#[trigger] nodes[i]).id == id
                    && prev[id] == new_node_id(keep, i) as u64
                    && forall|i2: int| i < i2 < k - 1 && keep[i2] ==> (#[trigger] nodes[i2]).id != id;
                assert(cur[id] == prev[id]);
                assert forall|i2: int| i < i2 < k && keep[i2] implies (#[trigger] nodes[i2]).id != id by {
                    if i2 < k - 1 {
                    }
                }
            }
        }
    }
}

} // verus!
