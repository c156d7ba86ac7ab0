//! The directed lane graph that traffic pathfinds on: lane waypoints as nodes and
//! lane segments as edges. Coordinates, speeds and lengths are of a number type `S`
//! chosen by the user of the graph.
use vstd::prelude::*;

verus! {

/// A lane waypoint at (`x`, `z`) on the ground plane and height `y`.
#[derive(Debug, Clone, Copy)]
pub struct LaneNode<S> {
    pub id: u64,
    pub x: S,
    pub z: S,
    pub y: S,
}

/// A lane segment from node `from` to node `to`.
#[derive(Debug, Clone, Copy)]
pub struct LaneEdge<S> {
    pub id: u64,
    pub from: u64,
    pub to: u64,
    pub speed_limit_kmh: S,
    pub lane_index: u8,
    pub road_id: u64,
    pub layer: i8,
    pub length: S,
}

/// The phases of a traffic signal.
#[derive(Debug, Clone, Copy, PartialEq, Eq, Structural)]
pub enum SignalPhase {
    Green,
    Yellow,
    Red,
    LeftTurnArrow,
    PedestrianWalk,
}

/// A signal controller at (`x`, `z`) cycling through timed phases.
#[derive(Debug, Clone)]
pub struct SignalController<S> {
    pub id: u64,
    pub x: S,
    pub z: S,
    pub cycle_time: S,
    pub phases: Vec<(SignalPhase, S)>,
    pub controlled_edge_ids: Vec<u64>,
}

/// Nodes, edges and signal controllers of a lane graph.
#[derive(Debug, Clone)]
pub struct TrafficGraph<S> {
    pub nodes: Vec<LaneNode<S>>,
    pub edges: Vec<LaneEdge<S>>,
    pub signals: Vec<SignalController<S>>,
}

/// A graph is well formed when every node's and edge's id is its position in its
/// list and every edge joins two nodes of the graph.
pub open spec fn graph_wf<S>(nodes: Seq<LaneNode<S>>, edges: Seq<LaneEdge<S>>) -> bool {
    &&& forall|i: int| 0 <= i < nodes.len() ==> (#[trigger] nodes[i]).id == i
    &&& forall|j: int| 0 <= j < edges.len() ==> {
        &&& (#[trigger] edges[j]).id == j
        &&& edges[j].from < nodes.len()
        &&& edges[j].to < nodes.len()
    }
}

impl<S: Copy> TrafficGraph<S> {
    pub open spec fn wf(&self) -> bool {
        graph_wf(self.nodes@, self.edges@)
    }

    /// An empty graph.
    pub fn new() -> (res: Self)
        ensures
            res.nodes@.len() == 0,
            res.edges@.len() == 0,
            res.signals@.len() == 0,
            res.wf(),
    {
        TrafficGraph { nodes: Vec::new(), edges: Vec::new(), signals: Vec::new() }
    }

    /// Adds a waypoint and returns its id, the number of nodes before it.
    pub fn add_node(&mut self, x: S, z: S, y: S) -> (id: u64)
        ensures
            id == old(self).nodes@.len(),
            final(self).nodes@ == old(self).nodes@.push(LaneNode { id, x, z, y }),
            final(self).edges@ == old(self).edges@,
            final(self).signals@ == old(self).signals@,
            old(self).wf() ==> final(self).wf(),
    {
        let id = self.nodes.len() as u64;
        self.nodes.push(LaneNode { id, x, z, y });
        id
    }

    /// Adds a lane segment of length `length` between two existing nodes and returns
    /// its id, the number of edges before it.
    pub fn add_edge(
        &mut self,
        from: u64,
        to: u64,
        speed_limit: S,
        lane_index: u8,
        road_id: u64,
        layer: i8,
        length: S,
    ) -> (id: u64)
        requires
            from < old(self).nodes@.len(),
            to < old(self).nodes@.len(),
        ensures
            id == old(self).edges@.len(),
            final(self).edges@ == old(self).edges@.push(
                LaneEdge { id, from, to, speed_limit_kmh: speed_limit, lane_index, road_id, layer, length },
            ),
            final(self).nodes@ == old(self).nodes@,
            final(self).signals@ == old(self).signals@,
            old(self).wf() ==> final(self).wf(),
    {
        let id = self.edges.len() as u64;
        self.edges.push(
            LaneEdge { id, from, to, speed_limit_kmh: speed_limit, lane_index, road_id, layer, length },
        );
        id
    }
}

impl<S: Copy> Default for TrafficGraph<S> {
    fn default() -> (res: Self)
        ensures
            res.nodes@.len() == 0,
            res.edges@.len() == 0,
            res.signals@.len() == 0,
    {
        TrafficGraph::new()
    }
}

} // verus!
