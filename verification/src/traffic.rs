//! Building the lane graph from roads: one node per road point, and for every lane
//! a chain of edges along the road (forward lanes) or against it (backward lanes,
//! on two-way roads only).
use vstd::prelude::*;
use crate::lane_graph::{LaneNode, LaneEdge, TrafficGraph, graph_wf};

verus! {

/// A road ready to be turned into lanes: its points on the ground plane, the length
/// of each segment between consecutive points, the height of the road and its lane
/// attributes.
#[derive(Debug, Clone)]
pub struct LaneRoad<S> {
    pub id: u64,
    /// (`x`, `z`) of every road point.
    pub points: Vec<(S, S)>,
    /// `segment_lengths[i]` is the distance from point `i` to point `i + 1`.
    pub segment_lengths: Vec<S>,
    pub height: S,
    pub lanes_forward: u8,
    pub lanes_backward: u8,
    pub is_oneway: bool,
    pub layer: i8,
    pub speed_limit_kmh: S,
}

/// A road contributes to the graph only when it has at least two points.
pub open spec fn is_drivable<S>(r: LaneRoad<S>) -> bool {
    r.points@.len() >= 2
}

/// The road's segment lengths match its points.
pub open spec fn road_ok<S>(r: LaneRoad<S>) -> bool {
    is_drivable(r) ==> r.segment_lengths@.len() + 1 == r.points@.len()
}

/// The nodes of road `r`, numbered from `base`.
pub open spec fn road_nodes<S>(r: LaneRoad<S>, base: int) -> Seq<LaneNode<S>> {
    Seq::new(
        r.points@.len(),
        |i: int| LaneNode { id: (base + i) as u64, x: r.points@[i].0, z: r.points@[i].1, y: r.height },
    )
}

/// Edge `id` of lane `lane` of road `r` from node `base + i` to node `base + j`,
/// over segment `seg`.
pub open spec fn lane_edge<S>(r: LaneRoad<S>, id: int, base: int, i: int, j: int, lane: int, seg: int) -> LaneEdge<S> {
    LaneEdge {
        id: id as u64,
        from: (base + i) as u64,
        to: (base + j) as u64,
        speed_limit_kmh: r.speed_limit_kmh,
        lane_index: lane as u8,
        road_id: r.id,
        layer: r.layer,
        length: r.segment_lengths@[seg],
    }
}

/// One forward lane: edges from each point to the next, numbered from `first`.
pub open spec fn forward_chain<S>(r: LaneRoad<S>, base: int, lane: int, first: int) -> Seq<LaneEdge<S>> {
    Seq::new(
        (r.points@.len() - 1) as nat,
        |k: int| lane_edge(r, first + k, base, k, k + 1, lane, k),
    )
}

/// One backward lane: edges from each point to the previous one, starting at the
/// road's end, numbered from `first`.
pub open spec fn backward_chain<S>(r: LaneRoad<S>, base: int, lane: int, first: int) -> Seq<LaneEdge<S>> {
    let n = r.points@.len() as int;
    Seq::new(
        (n - 1) as nat,
        |k: int| lane_edge(r, first + k, base, n - 1 - k, n - 2 - k, lane, n - 2 - k),
    )
}

/// The first `lanes` lanes in one direction, numbered from `first`.
pub open spec fn lane_chains<S>(r: LaneRoad<S>, base: int, first: int, lanes: nat, forward: bool) -> Seq<LaneEdge<S>>
    decreases lanes,
{
    if lanes == 0 {
        Seq::empty()
    } else {
        let p = lane_chains(r, base, first, (lanes - 1) as nat, forward);
        p + if forward {
            forward_chain(r, base, lanes - 1, first + p.len())
        } else {
            backward_chain(r, base, lanes - 1, first + p.len())
        }
    }
}

/// All edges of road `r`: its forward lanes, then (unless one-way) its backward lanes.
pub open spec fn road_edges<S>(r: LaneRoad<S>, base: int, first: int) -> Seq<LaneEdge<S>> {
    let f = lane_chains(r, base, first, r.lanes_forward as nat, true);
    f + if r.is_oneway {
        Seq::empty()
    } else {
        lane_chains(r, base, first + f.len(), r.lanes_backward as nat, false)
    }
}

/// The nodes of the graph of the roads `rs`, road after road.
pub open spec fn graph_nodes<S>(rs: Seq<LaneRoad<S>>) -> Seq<LaneNode<S>>
    decreases rs.len(),
{
    if rs.len() == 0 {
        Seq::empty()
    } else {
        let prev = graph_nodes(rs.drop_last());
        let r = rs.last();
        prev + if is_drivable(r) { road_nodes(r, prev.len() as int) } else { Seq::empty() }
    }
}

/// The edges of the graph of the roads `rs`, road after road.
pub open spec fn graph_edges<S>(rs: Seq<LaneRoad<S>>) -> Seq<LaneEdge<S>>
    decreases rs.len(),
{
    if rs.len() == 0 {
        Seq::empty()
    } else {
        let prev = graph_edges(rs.drop_last());
        let r = rs.last();
        prev + if is_drivable(r) {
            road_edges(r, graph_nodes(rs.drop_last()).len() as int, prev.len() as int)
        } else {
            Seq::empty()
        }
    }
}

/// Builds the lane graph of `roads`, without signal controllers.
pub fn build_lane_graph<S: Copy>(roads: &Vec<LaneRoad<S>>) -> (res: TrafficGraph<S>)
    requires
        forall|k: int| 0 <= k < roads@.len() ==> road_ok(#[trigger] roads@[k]),
    ensures
        res.nodes@ == graph_nodes(roads@),
        res.edges@ == graph_edges(roads@),
        res.signals@.len() == 0,
        res.wf(),
{
    let mut graph: TrafficGraph<S> = TrafficGraph::new();
    let count = roads.len();
    for k in 0..count
        invariant
            count == roads@.len(),
            forall|t: int| 0 <= t < roads@.len() ==> road_ok(#[trigger] roads@[t]),
            graph.nodes@ == graph_nodes(roads@.take(k as int)),
            graph.edges@ == graph_edges(roads@.take(k as int)),
            graph.signals@.len() == 0,
            graph.wf(),
    {
        proof {
            assert(roads@.take(k + 1).drop_last() =~= roads@.take(k as int));
        }
        let r = &roads[k];
        let n = r.points.len();
        if n >= 2 {
            add_road(&mut graph, r);
        }
        proof {
            assert(graph.nodes@ =~= graph_nodes(roads@.take(k + 1)));
            assert(graph.edges@ =~= graph_edges(roads@.take(k + 1)));
        }
    }
    proof {
        assert(roads@.take(count as int) =~= roads@);
    }
    graph
}

/// Adds the nodes and lane edges of one road to the graph.
fn add_road<S: Copy>(graph: &mut TrafficGraph<S>, r: &LaneRoad<S>)
    requires
        old(graph).wf(),
        is_drivable(*r),
        road_ok(*r),
    ensures
        final(graph).nodes@ == old(graph).nodes@ + road_nodes(*r, old(graph).nodes@.len() as int),
        final(graph).edges@ == old(graph).edges@ + road_edges(
            *r,
            old(graph).nodes@.len() as int,
            old(graph).edges@.len() as int,
        ),
        final(graph).signals@ == old(graph).signals@,
        final(graph).wf(),
{
    let n = r.points.len();
    let base = graph.nodes.len();
    let ghost start_nodes = graph.nodes@;
    for i in 0..n
        invariant
            n == r.points@.len(),
            base == start_nodes.len(),
            graph.nodes@ == start_nodes + road_nodes(*r, base as int).take(i as int),
            graph.edges@ == old(graph).edges@,
            graph.signals@ == old(graph).signals@,
            start_nodes == old(graph).nodes@,
            graph.wf(),
    {
        let p = r.points[i];
        graph.add_node(p.0, p.1, r.height);
        assert(graph.nodes@ =~= start_nodes + road_nodes(*r, base as int).take(i + 1));
    }
    assert(road_nodes(*r, base as int).take(n as int) =~= road_nodes(*r, base as int));
    let total = graph.nodes.len();
    assert(total == base + n);
    let ghost all_nodes = graph.nodes@;
    let ghost signals = graph.signals@;
    let first = graph.edges.len();
    let ghost start_edges = graph.edges@;
    let lanes_forward = r.lanes_forward;
    for lane in 0..lanes_forward
        invariant
            n == r.points@.len(),
            n >= 2,
            road_ok(*r),
            lanes_forward == r.lanes_forward,
            graph.nodes@ == all_nodes,
            graph.signals@ == signals,
            total == base + n,
            all_nodes.len() == total,
            first == start_edges.len(),
            graph.edges@ == start_edges + lane_chains(*r, base as int, first as int, lane as nat, true),
            graph.wf(),
    {
        let ghost before = graph.edges@;
        let ghost chain_first = graph.edges@.len() as int;
        for i in 0..n - 1
            invariant
                n == r.points@.len(),
                n >= 2,
                road_ok(*r),
                graph.nodes@ == all_nodes,
                graph.signals@ == signals,
                total == base + n,
                all_nodes.len() == total,
                graph.edges@ == before + forward_chain(*r, base as int, lane as int, chain_first).take(i as int),
                chain_first == before.len(),
                graph.wf(),
        {
            graph.add_edge(
                (base + i) as u64,
                (base + i + 1) as u64,
                r.speed_limit_kmh,
                lane,
                r.id,
                r.layer,
                r.segment_lengths[i],
            );
            assert(graph.edges@ =~= before + forward_chain(*r, base as int, lane as int, chain_first).take(i + 1));
        }
        assert(forward_chain(*r, base as int, lane as int, chain_first).take((n - 1) as int)
            =~= forward_chain(*r, base as int, lane as int, chain_first));
        assert(graph.edges@ =~= start_edges + lane_chains(*r, base as int, first as int, (lane + 1) as nat, true));
    }
    let ghost forward_edges = graph.edges@;
    if !r.is_oneway {
        let second = graph.edges.len();
        let lanes_backward = r.lanes_backward;
        for lane in 0..lanes_backward
            invariant
                n == r.points@.len(),
                n >= 2,
                road_ok(*r),
                lanes_backward == r.lanes_backward,
                graph.nodes@ == all_nodes,
                graph.signals@ == signals,
                total == base + n,
                all_nodes.len() == total,
                second == forward_edges.len(),
                graph.edges@ == forward_edges + lane_chains(*r, base as int, second as int, lane as nat, false),
                graph.wf(),
        {
            let ghost before = graph.edges@;
            let ghost chain_first = graph.edges@.len() as int;
            for k in 0..n - 1
                invariant
                    n == r.points@.len(),
                    n >= 2,
                    road_ok(*r),
                    graph.nodes@ == all_nodes,
                graph.signals@ == signals,
                total == base + n,
                all_nodes.len() == total,
                    graph.edges@ == before + backward_chain(*r, base as int, lane as int, chain_first).take(k as int),
                    chain_first == before.len(),
                    graph.wf(),
            {
                let i = n - 1 - k;
                graph.add_edge(
                    (base + i) as u64,
                    (base + i - 1) as u64,
                    r.speed_limit_kmh,
                    lane,
                    r.id,
                    r.layer,
                    r.segment_lengths[i - 1],
                );
                assert(graph.edges@ =~= before + backward_chain(*r, base as int, lane as int, chain_first).take(k + 1));
            }
            assert(backward_chain(*r, base as int, lane as int, chain_first).take((n - 1) as int)
                =~= backward_chain(*r, base as int, lane as int, chain_first));
            assert(graph.edges@ =~= forward_edges + lane_chains(*r, base as int, second as int, (lane + 1) as nat, false));
        }
    }
    assert(graph.edges@ =~= start_edges + road_edges(*r, base as int, first as int));
}

/// Each lane of a road has one edge per segment.
pub proof fn lemma_lane_chains_len<S>(r: LaneRoad<S>, base: int, first: int, lanes: nat, forward: bool)
    requires
        is_drivable(r),
    ensures
        lane_chains(r, base, first, lanes, forward).len() == lanes * (r.points@.len() - 1),
    decreases lanes,
{
    let m = r.points@.len() - 1;
    if lanes > 0 {
        lemma_lane_chains_len(r, base, first, (lanes - 1) as nat, forward);
        let p = lane_chains(r, base, first, (lanes - 1) as nat, forward);
        assert(forward_chain(r, base, lanes - 1, first + p.len()).len() == m);
        assert(backward_chain(r, base, lanes - 1, first + p.len()).len() == m);
        assert(lanes * m == (lanes - 1) * m + m) by (nonlinear_arith);
    } else {
        assert(lanes * m == 0) by (nonlinear_arith) requires lanes == 0;
    }
}

/// A road with `n` points gets `n` nodes and `n - 1` edges per lane: its forward
/// lanes, plus its backward lanes unless it is one-way.
pub proof fn lemma_road_counts<S>(r: LaneRoad<S>, base: int, first: int)
    requires
        is_drivable(r),
    ensures
        road_nodes(r, base).len() == r.points@.len(),
        road_edges(r, base, first).len() == (r.points@.len() - 1) * (r.lanes_forward
            + if r.is_oneway { 0 } else { r.lanes_backward as int }),
{
    let n1 = r.points@.len() - 1;
    lemma_lane_chains_len(r, base, first, r.lanes_forward as nat, true);
    let f = lane_chains(r, base, first, r.lanes_forward as nat, true);
    lemma_lane_chains_len(r, base, first + f.len(), r.lanes_backward as nat, false);
    let fw = r.lanes_forward as int;
    let bw = r.lanes_backward as int;
    assert(n1 * (fw + bw) == fw * n1 + bw * n1) by (nonlinear_arith);
    assert(n1 * fw == fw * n1) by (nonlinear_arith);
}

/// The lanes of one direction join consecutive points of the road: forward lanes go
/// from each point to the next, backward lanes from each point to the previous one.
pub proof fn lemma_lane_chains_direction<S>(r: LaneRoad<S>, base: int, first: int, lanes: nat, forward: bool)
    requires
        is_drivable(r),
        base >= 0,
        base + r.points@.len() <= u64::MAX,
    ensures
        forall|t: int| 0 <= t < lane_chains(r, base, first, lanes, forward).len() ==> {
            let e = #[trigger] lane_chains(r, base, first, lanes, forward)[t];
            &&& base <= e.from < base + r.points@.len()
            &&& base <= e.to < base + r.points@.len()
            &&& forward ==> e.to == e.from + 1
            &&& !forward ==> e.to + 1 == e.from
        },
    decreases lanes,
{
    if lanes > 0 {
        lemma_lane_chains_direction(r, base, first, (lanes - 1) as nat, forward);
        let p = lane_chains(r, base, first, (lanes - 1) as nat, forward);
        let all = lane_chains(r, base, first, lanes, forward);
        assert forall|t: int| 0 <= t < all.len() implies {
            let e = #[trigger] all[t];
            &&& base <= e.from < base + r.points@.len()
            &&& base <= e.to < base + r.points@.len()
            &&& forward ==> e.to == e.from + 1
            &&& !forward ==> e.to + 1 == e.from
        } by {
            if t < p.len() {
                assert(all[t] == p[t]);
            }
        }
    }
}

/// Every edge of a road joins two consecutive points of that road; on a one-way road
/// every edge leads from a point to the next one.
pub proof fn lemma_road_edges_direction<S>(r: LaneRoad<S>, base: int, first: int)
    requires
        is_drivable(r),
        base >= 0,
        base + r.points@.len() <= u64::MAX,
    ensures
        forall|t: int| 0 <= t < road_edges(r, base, first).len() ==> {
            let e = #[trigger] road_edges(r, base, first)[t];
            &&& base <= e.from < base + r.points@.len()
            &&& base <= e.to < base + r.points@.len()
            &&& (e.to == e.from + 1 || e.to + 1 == e.from)
            &&& r.is_oneway ==> e.to == e.from + 1
        },
{
    let f = lane_chains(r, base, first, r.lanes_forward as nat, true);
    lemma_lane_chains_direction(r, base, first, r.lanes_forward as nat, true);
    lemma_lane_chains_direction(r, base, first + f.len(), r.lanes_backward as nat, false);
    let all = road_edges(r, base, first);
    assert forall|t: int| 0 <= t < all.len() implies {
        let e = #[trigger] all[t];
        &&& base <= e.from < base + r.points@.len()
        &&& base <= e.to < base + r.points@.len()
        &&& (e.to == e.from + 1 || e.to + 1 == e.from)
        &&& r.is_oneway ==> e.to == e.from + 1
    } by {
        if t < f.len() {
            assert(all[t] == f[t]);
        } else {
            assert(all[t] == lane_chains(r, base, first + f.len(), r.lanes_backward as nat, false)[t - f.len()]);
        }
    }
}


/// Every lane edge of a road carries the road's own attributes: its id, its layer,
/// its speed limit; its lane number is one of the road's lanes in that direction;
/// and its length is the length of the road segment it runs along, from point
/// `i` to point `i + 1` or back.
pub proof fn lemma_lane_chains_attributes<S>(r: LaneRoad<S>, base: int, first: int, lanes: nat, forward: bool)
    requires
        is_drivable(r),
        lanes <= 256,
    ensures
        forall|t: int| 0 <= t < lane_chains(r, base, first, lanes, forward).len() ==> {
            let e = #[trigger] lane_chains(r, base, first, lanes, forward)[t];
            &&& e.road_id == r.id
            &&& e.layer == r.layer
            &&& e.speed_limit_kmh == r.speed_limit_kmh
            &&& e.lane_index < lanes
            &&& e.id == (first + t) as u64
            &&& exists|i: int| #![trigger r.segment_lengths@[i]] 0 <= i < r.points@.len() - 1
                && e.length == r.segment_lengths@[i]
                && (forward ==> e.from == (base + i) as u64 && e.to == (base + i + 1) as u64)
                && (!forward ==> e.from == (base + i + 1) as u64 && e.to == (base + i) as u64)
        },
    decreases lanes,
{
    if lanes > 0 {
        lemma_lane_chains_attributes(r, base, first, (lanes - 1) as nat, forward);
        let p = lane_chains(r, base, first, (lanes - 1) as nat, forward);
        let all = lane_chains(r, base, first, lanes, forward);
        let n = r.points@.len() as int;
        assert forall|t: int| 0 <= t < all.len() implies {
            let e = #[trigger] all[t];
            &&& e.road_id == r.id
            &&& e.layer == r.layer
            &&& e.speed_limit_kmh == r.speed_limit_kmh
            &&& e.lane_index < lanes
            &&& e.id == (first + t) as u64
            &&& exists|i: int| #![trigger r.segment_lengths@[i]] 0 <= i < r.points@.len() - 1
                && e.length == r.segment_lengths@[i]
                && (forward ==> e.from == (base + i) as u64 && e.to == (base + i + 1) as u64)
                && (!forward ==> e.from == (base + i + 1) as u64 && e.to == (base + i) as u64)
        } by {
            if t < p.len() {
                assert(all[t] == p[t]);
            } else {
                let k = t - p.len();
                if forward {
                    assert(all[t] == lane_edge(r, first + t, base, k, k + 1, lanes - 1, k));
                    assert(r.segment_lengths@[k] == all[t].length);
                } else {
                    assert(all[t] == lane_edge(r, first + t, base, n - 1 - k, n - 2 - k, lanes - 1, n - 2 - k));
                    assert(r.segment_lengths@[n - 2 - k] == all[t].length);
                }
            }
        }
    }
}

/// Every edge of a road carries the road's id, layer and speed limit, and a lane
/// number of its direction: below the forward lane count when it leads from a point
/// to the next, below the backward lane count when it leads back.
pub proof fn lemma_road_edges_attributes<S>(r: LaneRoad<S>, base: int, first: int)
    requires
        is_drivable(r),
    ensures
        forall|t: int| 0 <= t < road_edges(r, base, first).len() ==> {
            let e = #[trigger] road_edges(r, base, first)[t];
            &&& e.road_id == r.id
            &&& e.layer == r.layer
            &&& e.speed_limit_kmh == r.speed_limit_kmh
            &&& e.id == (first + t) as u64
            &&& exists|i: int| #![trigger r.segment_lengths@[i]] 0 <= i < r.points@.len() - 1
                && e.length == r.segment_lengths@[i]
                && ((e.from == (base + i) as u64 && e.to == (base + i + 1) as u64 && e.lane_index < r.lanes_forward)
                    || (!r.is_oneway && e.from == (base + i + 1) as u64 && e.to == (base + i) as u64
                        && e.lane_index < r.lanes_backward))
        },
{
    let f = lane_chains(r, base, first, r.lanes_forward as nat, true);
    let b = lane_chains(r, base, first + f.len(), r.lanes_backward as nat, false);
    lemma_lane_chains_attributes(r, base, first, r.lanes_forward as nat, true);
    lemma_lane_chains_attributes(r, base, first + f.len(), r.lanes_backward as nat, false);
    let all = road_edges(r, base, first);
    assert forall|t: int| 0 <= t < all.len() implies {
        let e = #[trigger] all[t];
        &&& e.road_id == r.id
        &&& e.layer == r.layer
        &&& e.speed_limit_kmh == r.speed_limit_kmh
        &&& e.id == (first + t) as u64
        &&& exists|i: int| #![trigger r.segment_lengths@[i]] 0 <= i < r.points@.len() - 1
            && e.length == r.segment_lengths@[i]
            && ((e.from == (base + i) as u64 && e.to == (base + i + 1) as u64 && e.lane_index < r.lanes_forward)
                || (!r.is_oneway && e.from == (base + i + 1) as u64 && e.to == (base + i) as u64
                    && e.lane_index < r.lanes_backward))
    } by {
        if t < f.len() {
            assert(all[t] == f[t]);
        } else {
            assert(all[t] == b[t - f.len()]);
        }
    }
}

/// Every edge of the graph of `rs` comes from one drivable road of `rs` and carries
/// that road's id, layer and speed limit; edges are numbered by their position.
pub proof fn lemma_graph_edges_from_roads<S>(rs: Seq<LaneRoad<S>>)
    ensures
        forall|t: int| 0 <= t < graph_edges(rs).len() ==> {
            let e = #[trigger] graph_edges(rs)[t];
            &&& e.id == t as u64
            &&& exists|k: int| #![trigger rs[k]] 0 <= k < rs.len() && is_drivable(rs[k])
                && e.road_id == rs[k].id && e.layer == rs[k].layer
                && e.speed_limit_kmh == rs[k].speed_limit_kmh
        },
    decreases rs.len(),
{
    if rs.len() > 0 {
        let prev = rs.drop_last();
        let r = rs.last();
        lemma_graph_edges_from_roads(prev);
        let pe = graph_edges(prev);
        let all = graph_edges(rs);
        if is_drivable(r) {
            lemma_road_edges_attributes(r, graph_nodes(prev).len() as int, pe.len() as int);
        }
        assert forall|t: int| 0 <= t < all.len() implies {
            let e = #[trigger] all[t];
            &&& e.id == t as u64
            &&& exists|k: int| #![trigger rs[k]] 0 <= k < rs.len() && is_drivable(rs[k])
                && e.road_id == rs[k].id && e.layer == rs[k].layer
                && e.speed_limit_kmh == rs[k].speed_limit_kmh
        } by {
            if t < pe.len() {
                assert(all[t] == pe[t]);
                let k = choose|k: int| #![trigger prev[k]] 0 <= k < prev.len() && is_drivable(prev[k])
                    && pe[t].road_id == prev[k].id && pe[t].layer == prev[k].layer
                    && pe[t].speed_limit_kmh == prev[k].speed_limit_kmh;
                assert(rs[k] == prev[k]);
            } else {
                let re = road_edges(r, graph_nodes(prev).len() as int, pe.len() as int);
                assert(all[t] == re[t - pe.len()]);
                assert(rs[rs.len() - 1] == r);
            }
        }
    }
}


/// Every node of the graph of `rs` is a point of one drivable road of `rs`, at that
/// point's position and the road's height, numbered by its position in the graph;
/// and the nodes of the last drivable road are its points, in order.
pub proof fn lemma_graph_nodes_from_roads<S>(rs: Seq<LaneRoad<S>>)
    ensures
        forall|t: int| 0 <= t < graph_nodes(rs).len() ==> {
            let v = #[trigger] graph_nodes(rs)[t];
            &&& v.id == t as u64
            &&& exists|k: int, i: int| #![trigger rs[k].points@[i]] 0 <= k < rs.len() && is_drivable(rs[k])
                && 0 <= i < rs[k].points@.len()
                && v.x == rs[k].points@[i].0 && v.z == rs[k].points@[i].1 && v.y == rs[k].height
        },
        rs.len() > 0 && is_drivable(rs.last()) ==> {
            let base = graph_nodes(rs).len() - rs.last().points@.len();
            forall|i: int| 0 <= i < rs.last().points@.len() ==> {
                let v = #[trigger] graph_nodes(rs)[base + i];
                v.x == rs.last().points@[i].0 && v.z == rs.last().points@[i].1 && v.y == rs.last().height
            }
        },
    decreases rs.len(),
{
    if rs.len() > 0 {
        let prev = rs.drop_last();
        let r = rs.last();
        lemma_graph_nodes_from_roads(prev);
        let pn = graph_nodes(prev);
        let all = graph_nodes(rs);
        assert forall|t: int| 0 <= t < all.len() implies {
            let v = #[trigger] all[t];
            &&& v.id == t as u64
            &&& exists|k: int, i: int| #![trigger rs[k].points@[i]] 0 <= k < rs.len() && is_drivable(rs[k])
                && 0 <= i < rs[k].points@.len()
                && v.x == rs[k].points@[i].0 && v.z == rs[k].points@[i].1 && v.y == rs[k].height
        } by {
            if t < pn.len() {
                assert(all[t] == pn[t]);
                let (k, i) = choose|k: int, i: int| #![trigger prev[k].points@[i]] 0 <= k < prev.len()
                    && is_drivable(prev[k]) && 0 <= i < prev[k].points@.len()
                    && pn[t].x == prev[k].points@[i].0 && pn[t].z == prev[k].points@[i].1
                    && pn[t].y == prev[k].height;
                assert(rs[k] == prev[k]);
            } else {
                assert(all[t] == road_nodes(r, pn.len() as int)[t - pn.len()]);
                assert(rs[rs.len() - 1] == r);
                assert(rs[rs.len() - 1].points@[t - pn.len()] == r.points@[t - pn.len()]);
            }
        }
        if is_drivable(r) {
            let base = all.len() - r.points@.len();
            assert forall|i: int| 0 <= i < r.points@.len() implies {
                let v = #[trigger] all[base + i];
                v.x == r.points@[i].0 && v.z == r.points@[i].1 && v.y == r.height
            } by {
                assert(all[base + i] == road_nodes(r, pn.len() as int)[i]);
            }
        }
    }
}

} // verus!
