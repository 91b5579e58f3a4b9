//! The road network: nodes and the segments between them, each held by id.
//!
//! Nodes and segments refer to each other by id only. A node lists the
//! segments that end at it; a segment names its two end nodes. Ids are handed
//! out in ascending order and never reused.

use crate::geometry::{dist_sq3, lemma_square_bound, Point3, UNIT};
use std::collections::HashMap;
use vstd::prelude::*;

verus! {

/// Surface of a road.
#[derive(Clone, Copy, Debug, PartialEq, Eq, Structural)]
pub enum RoadType {
    Dirt,
    Gravel,
    Paved,
}

impl Default for RoadType {
    fn default() -> (r: Self)
        ensures
            r == RoadType::Dirt,
    {
        RoadType::Dirt
    }
}

impl RoadType {
    /// The colour of the surface: red, green, blue and opacity, each in
    /// thousandths.
    pub open spec fn tint(self) -> Seq<u16> {
        match self {
            RoadType::Dirt => seq![350u16, 250u16, 150u16, 1000u16],
            RoadType::Gravel => seq![600u16, 580u16, 550u16, 1000u16],
            RoadType::Paved => seq![350u16, 350u16, 380u16, 1000u16],
        }
    }

    /// The colour of the surface: red, green, blue and opacity, each in
    /// thousandths.
    pub fn color(&self) -> (c: [u16; 4])
        ensures
            c@ == self.tint(),
    {
        let c = match self {
            RoadType::Dirt => [350, 250, 150, 1000],
            RoadType::Gravel => [600, 580, 550, 1000],
            RoadType::Paved => [350, 350, 380, 1000],
        };
        assert(c@ =~= self.tint());
        c
    }
}

/// Identifies a node of the network.
#[derive(Clone, Copy, Debug, PartialEq, Eq, Structural, Hash)]
pub struct NodeId(pub u32);

/// Identifies a segment of the network.
#[derive(Clone, Copy, Debug, PartialEq, Eq, Structural, Hash)]
pub struct SegmentId(pub u32);

/// Width of a road laid by the player: two world units.
pub const DEFAULT_ROAD_WIDTH: i32 = 2 * UNIT;

/// A junction or road end.
pub struct RoadNode {
    pub position: Point3,
    /// The segments that end here.
    pub segments: Vec<SegmentId>,
}

/// A road between two nodes.
pub struct RoadSegment {
    /// The two end nodes.
    pub nodes: [NodeId; 2],
    /// Curve control points between the ends; none for a straight road.
    pub control_points: Vec<Point3>,
    pub road_type: RoadType,
    /// Width in steps.
    pub width: i32,
}

/// What a node is, as plain values.
pub struct NodeView {
    pub position: Point3,
    pub segments: Seq<SegmentId>,
}

/// What a segment is, as plain values.
pub struct SegmentView {
    pub from: NodeId,
    pub to: NodeId,
    pub control_points: Seq<Point3>,
    pub road_type: RoadType,
    pub width: i32,
}

impl View for RoadNode {
    type V = NodeView;

    open spec fn view(&self) -> NodeView {
        NodeView { position: self.position, segments: self.segments@ }
    }
}

impl View for RoadSegment {
    type V = SegmentView;

    open spec fn view(&self) -> SegmentView {
        SegmentView {
            from: self.nodes[0],
            to: self.nodes[1],
            control_points: self.control_points@,
            road_type: self.road_type,
            width: self.width,
        }
    }
}

impl Default for RoadSegment {
    fn default() -> (r: Self)
        ensures
            r@ == (SegmentView {
                from: NodeId(0),
                to: NodeId(0),
                control_points: Seq::<Point3>::empty(),
                road_type: RoadType::Dirt,
                width: DEFAULT_ROAD_WIDTH,
            }),
    {
        RoadSegment {
            nodes: [NodeId(0), NodeId(0)],
            control_points: Vec::new(),
            road_type: RoadType::Dirt,
            width: DEFAULT_ROAD_WIDTH,
        }
    }
}

/// `s` with every occurrence of `id` taken out, the rest in order.
pub open spec fn without(s: Seq<SegmentId>, id: SegmentId) -> Seq<SegmentId>
    decreases s.len(),
{
    if s.len() == 0 {
        Seq::empty()
    } else if s.last() == id {
        without(s.drop_last(), id)
    } else {
        without(s.drop_last(), id).push(s.last())
    }
}

/// The ids below `bound` that `segments` holds, ascending.
pub open spec fn ids_below(segments: Map<u32, SegmentView>, bound: nat) -> Seq<SegmentId>
    decreases bound,
{
    if bound == 0 {
        Seq::empty()
    } else {
        let rest = ids_below(segments, (bound - 1) as nat);
        if segments.contains_key((bound - 1) as u32) {
            rest.push(SegmentId((bound - 1) as u32))
        } else {
            rest
        }
    }
}

/// The network as two maps and the next id of each kind.
pub struct NetworkView {
    pub nodes: Map<u32, NodeView>,
    pub segments: Map<u32, SegmentView>,
    pub next_node_id: u32,
    pub next_segment_id: u32,
}

impl NetworkView {
    pub open spec fn empty() -> NetworkView {
        NetworkView {
            nodes: Map::empty(),
            segments: Map::empty(),
            next_node_id: 0,
            next_segment_id: 0,
        }
    }

    /// Segment `s` exists and ends at node `n`.
    pub open spec fn touches(self, s: SegmentId, n: u32) -> bool {
        self.segments.contains_key(s.0) && (self.segments[s.0].from.0 == n
            || self.segments[s.0].to.0 == n)
    }

    /// Node `n` exists and lists segment `s`.
    pub open spec fn listed(self, s: u32, n: NodeId) -> bool {
        self.nodes.contains_key(n.0) && self.nodes[n.0].segments.contains(SegmentId(s))
    }

    /// Every id in a node's list is a segment that ends at that node, and no
    /// id that is in use has yet to be handed out.
    pub open spec fn wf(self) -> bool {
        &&& self.nodes.dom().finite()
        &&& self.segments.dom().finite()
        &&& forall|n: u32| #[trigger] self.nodes.contains_key(n) ==> n < self.next_node_id
        &&& forall|s: u32| #[trigger] self.segments.contains_key(s) ==> s < self.next_segment_id
        &&& forall|n: u32, i: int|
            self.nodes.contains_key(n) && 0 <= i < self.nodes[n].segments.len() ==> self.touches(
                #[trigger] self.nodes[n].segments[i],
                n,
            )
    }

    /// Every segment's two ends exist and list it. Together with `wf` this is
    /// the agreement of both sides of the graph; it holds as long as segments
    /// are only added between existing nodes.
    pub open spec fn closed(self) -> bool {
        forall|s: u32| #[trigger]
            self.segments.contains_key(s) ==> self.listed(s, self.segments[s].from) && self.listed(
                s,
                self.segments[s].to,
            )
    }

    /// Node `n` exists.
    pub open spec fn has_node(self, n: NodeId) -> bool {
        self.nodes.contains_key(n.0)
    }

    /// Every node of `earlier` is still there, where it was.
    pub open spec fn keeps_nodes_of(self, earlier: NetworkView) -> bool {
        forall|n: u32| #[trigger]
            earlier.nodes.contains_key(n) ==> self.nodes.contains_key(n) && self.nodes[n].position
                == earlier.nodes[n].position
    }

    /// Squared distance from node `n` to `p`.
    pub open spec fn node_dist(self, n: u32, p: Point3) -> int {
        dist_sq3(self.nodes[n].position, p)
    }

    /// Node `n` lies strictly within `max_distance` of `p`, no node lies
    /// nearer, and of the nodes equally near it has the lowest id.
    pub open spec fn is_nearest(self, n: u32, p: Point3, max_distance: i32) -> bool {
        &&& self.nodes.contains_key(n)
        &&& self.node_dist(n, p) < max_distance * max_distance
        &&& forall|m: u32| #[trigger]
            self.nodes.contains_key(m) ==> self.node_dist(n, p) < self.node_dist(m, p) || (
            self.node_dist(n, p) == self.node_dist(m, p) && n <= m)
    }

    /// The node that a point within `max_distance` snaps to, if there is one.
    pub open spec fn nearest(self, p: Point3, max_distance: i32) -> Option<NodeId> {
        if exists|n: u32| self.is_nearest(n, p, max_distance) {
            Some(NodeId(choose|n: u32| self.is_nearest(n, p, max_distance)))
        } else {
            None
        }
    }

    /// Both ends of segment `s` exist.
    pub open spec fn has_ends(self, s: u32) -> bool {
        self.segments.contains_key(s) && self.nodes.contains_key(self.segments[s].from.0)
            && self.nodes.contains_key(self.segments[s].to.0)
    }

    /// The points that the curve of segment `s` runs through: its first
    /// end, its control points, its second end.
    pub open spec fn path(self, s: u32) -> Seq<Point3> {
        seq![self.nodes[self.segments[s].from.0].position] + self.segments[s].control_points
            + seq![self.nodes[self.segments[s].to.0].position]
    }

    /// The width of the widest of the first `upto` segments listed at node
    /// `n`, and no less than nothing. A listed segment that does not exist
    /// counts for nothing.
    pub open spec fn widest_at(self, n: u32, upto: nat) -> int
        decreases upto,
    {
        if upto == 0 {
            0
        } else {
            let rest = self.widest_at(n, (upto - 1) as nat);
            let s = self.nodes[n].segments[upto - 1].0;
            if self.segments.contains_key(s) && self.segments[s].width > rest {
                self.segments[s].width as int
            } else {
                rest
            }
        }
    }

    /// The surface of the first of the segments listed at node `n` from
    /// place `from` on that exists.
    pub open spec fn surface_from(self, n: u32, from: nat) -> Option<RoadType>
        decreases self.nodes[n].segments.len() - from,
    {
        if from >= self.nodes[n].segments.len() {
            None
        } else if self.segments.contains_key(self.nodes[n].segments[from as int].0) {
            Some(self.segments[self.nodes[n].segments[from as int].0].road_type)
        } else {
            self.surface_from(n, from + 1)
        }
    }

    /// Enough ids are left to commit one more road, whatever it crosses.
    pub open spec fn room_for_road(self) -> bool {
        self.next_node_id + self.next_segment_id + 2 <= u32::MAX && 4 * self.next_segment_id + 1
            <= u32::MAX
    }

    /// The ids of all segments, ascending.
    pub open spec fn segment_ids(self) -> Seq<SegmentId> {
        ids_below(self.segments, self.next_segment_id as nat)
    }

    pub open spec fn add_node(self, position: Point3) -> NetworkView {
        NetworkView {
            nodes: self.nodes.insert(
                self.next_node_id,
                NodeView { position, segments: Seq::empty() },
            ),
            next_node_id: (self.next_node_id + 1) as u32,
            ..self
        }
    }

    /// Appends `s` to the list of node `n`, if the node exists.
    pub open spec fn register(self, n: NodeId, s: SegmentId) -> NetworkView {
        if self.nodes.contains_key(n.0) {
            NetworkView {
                nodes: self.nodes.insert(
                    n.0,
                    NodeView {
                        position: self.nodes[n.0].position,
                        segments: self.nodes[n.0].segments.push(s),
                    },
                ),
                ..self
            }
        } else {
            self
        }
    }

    /// Takes `s` out of the list of node `n`, if the node exists.
    pub open spec fn unregister(self, n: NodeId, s: SegmentId) -> NetworkView {
        if self.nodes.contains_key(n.0) {
            NetworkView {
                nodes: self.nodes.insert(
                    n.0,
                    NodeView {
                        position: self.nodes[n.0].position,
                        segments: without(self.nodes[n.0].segments, s),
                    },
                ),
                ..self
            }
        } else {
            self
        }
    }

    pub open spec fn add_segment(
        self,
        from: NodeId,
        to: NodeId,
        control_points: Seq<Point3>,
        road_type: RoadType,
        width: i32,
    ) -> NetworkView {
        let id = SegmentId(self.next_segment_id);
        NetworkView {
            segments: self.segments.insert(
                id.0,
                SegmentView { from, to, control_points, road_type, width },
            ),
            next_segment_id: (self.next_segment_id + 1) as u32,
            ..self
        }.register(from, id).register(to, id)
    }

    pub open spec fn remove_segment(self, id: SegmentId) -> NetworkView {
        if self.segments.contains_key(id.0) {
            let s = self.segments[id.0];
            NetworkView { segments: self.segments.remove(id.0), ..self }.unregister(
                s.from,
                id,
            ).unregister(s.to, id)
        } else {
            self
        }
    }

    /// Replaces segment `id` by a new node at `position` and two straight
    /// segments through it, which keep the old segment's surface and width.
    pub open spec fn split_segment_at(self, id: SegmentId, position: Point3) -> NetworkView {
        let s = self.segments[id.0];
        let mid = NodeId(self.next_node_id);
        self.remove_segment(id).add_node(position).add_segment(
            s.from,
            mid,
            Seq::empty(),
            s.road_type,
            s.width,
        ).add_segment(mid, s.to, Seq::empty(), s.road_type, s.width)
    }
}

/// The two maps and the counters, with no promise that they agree.
struct Graph {
    nodes: HashMap<u32, RoadNode>,
    segments: HashMap<u32, RoadSegment>,
    next_node_id: u32,
    next_segment_id: u32,
}

impl View for Graph {
    type V = NetworkView;

    closed spec fn view(&self) -> NetworkView {
        NetworkView {
            nodes: self.nodes@.map_values(|n: RoadNode| n@),
            segments: self.segments@.map_values(|s: RoadSegment| s@),
            next_node_id: self.next_node_id,
            next_segment_id: self.next_segment_id,
        }
    }
}

impl Graph {
    /// An empty network.
    fn new() -> (r: Self)
        ensures
            r@ == NetworkView::empty(),
            r@.wf(),
    {
        let r = Graph {
            nodes: HashMap::new(),
            segments: HashMap::new(),
            next_node_id: 0,
            next_segment_id: 0,
        };
        assert(r@.nodes =~= Map::empty());
        assert(r@.segments =~= Map::empty());
        r
    }

    /// Adds a node at `position` and returns its id.
    fn add_node(&mut self, position: Point3) -> (id: NodeId)
        requires
            old(self)@.wf(),
            old(self)@.next_node_id < u32::MAX,
        ensures
            id.0 == old(self)@.next_node_id,
            final(self)@ == old(self)@.add_node(position),
            final(self)@.wf(),
            final(self)@.keeps_nodes_of(old(self)@),
            old(self)@.closed() ==> final(self)@.closed(),
    {
        let id = self.next_node_id;
        self.next_node_id = id + 1;
        self.nodes.insert(id, RoadNode { position, segments: Vec::new() });
        proof {
            assert(self@.nodes =~= old(self)@.add_node(position).nodes);
            lemma_add_node_wf(old(self)@, position);
        }
        NodeId(id)
    }

    /// Appends `s` to the list of node `n`, if the node exists.
    fn register(&mut self, n: NodeId, s: SegmentId)
        ensures
            final(self)@ == old(self)@.register(n, s),
    {
        if let Some(mut node) = self.nodes.remove(&n.0) {
            node.segments.push(s);
            self.nodes.insert(n.0, node);
            assert(self@.nodes =~= old(self)@.register(n, s).nodes);
        } else {
            assert(self@.nodes =~= old(self)@.nodes);
        }
    }

    /// Takes `s` out of the list of node `n`, if the node exists.
    fn unregister(&mut self, n: NodeId, s: SegmentId)
        ensures
            final(self)@ == old(self)@.unregister(n, s),
    {
        if let Some(node) = self.nodes.remove(&n.0) {
            let mut kept: Vec<SegmentId> = Vec::new();
            let mut i: usize = 0;
            while i < node.segments.len()
                invariant
                    i <= node.segments.len(),
                    kept@ == without(node.segments@.take(i as int), s),
                decreases node.segments.len() - i,
            {
                let x = node.segments[i];
                assert(node.segments@.take(i + 1).drop_last() =~= node.segments@.take(i as int));
                if x.0 != s.0 {
                    kept.push(x);
                }
                i += 1;
            }
            assert(node.segments@.take(i as int) =~= node.segments@);
            self.nodes.insert(n.0, RoadNode { position: node.position, segments: kept });
            assert(self@.nodes =~= old(self)@.unregister(n, s).nodes);
        } else {
            assert(self@.nodes =~= old(self)@.nodes);
        }
    }

    /// Adds a segment from `from` to `to` and returns its id. The segment is
    /// entered in the list of each end that exists; an end that does not
    /// exist is left dangling.
    fn add_segment(
        &mut self,
        from: NodeId,
        to: NodeId,
        control_points: Vec<Point3>,
        road_type: RoadType,
        width: i32,
    ) -> (id: SegmentId)
        requires
            old(self)@.wf(),
            old(self)@.next_segment_id < u32::MAX,
        ensures
            id.0 == old(self)@.next_segment_id,
            final(self)@ == old(self)@.add_segment(from, to, control_points@, road_type, width),
            final(self)@.wf(),
            final(self)@.keeps_nodes_of(old(self)@),
            old(self)@.closed() && old(self)@.has_node(from) && old(self)@.has_node(to)
                ==> final(self)@.closed(),
    {
        let id = self.next_segment_id;
        self.next_segment_id = id + 1;
        let ghost cps = control_points@;
        self.segments.insert(id, RoadSegment { nodes: [from, to], control_points, road_type, width });
        proof {
            let inserted = NetworkView {
                segments: old(self)@.segments.insert(
                    id,
                    SegmentView { from, to, control_points: cps, road_type, width },
                ),
                next_segment_id: (id + 1) as u32,
                ..old(self)@
            };
            assert(self@.segments =~= inserted.segments);
            assert(self@.nodes =~= inserted.nodes);
        }
        self.register(from, SegmentId(id));
        self.register(to, SegmentId(id));
        proof {
            lemma_add_segment_wf(old(self)@, from, to, cps, road_type, width);
        }
        SegmentId(id)
    }

    /// Removes a segment and takes it off the lists of its ends. Nodes are
    /// never removed. An unknown id changes nothing.
    fn remove_segment(&mut self, id: SegmentId)
        requires
            old(self)@.wf(),
        ensures
            final(self)@ == old(self)@.remove_segment(id),
            final(self)@.wf(),
            final(self)@.keeps_nodes_of(old(self)@),
            old(self)@.closed() ==> final(self)@.closed(),
    {
        if let Some(segment) = self.segments.remove(&id.0) {
            proof {
                let removed = NetworkView {
                    segments: old(self)@.segments.remove(id.0),
                    ..old(self)@
                };
                assert(self@.segments =~= removed.segments);
                assert(self@.nodes =~= removed.nodes);
            }
            self.unregister(segment.nodes[0], id);
            self.unregister(segment.nodes[1], id);
        } else {
            assert(self@.segments =~= old(self)@.segments);
            assert(self@.nodes =~= old(self)@.nodes);
        }
        proof {
            lemma_remove_segment_wf(old(self)@, id);
        }
    }

    /// Splits segment `segment_id` at `position`: the segment goes, a node at
    /// `position` comes, and two straight segments join it to the old ends.
    /// Returns the new node's id.
    fn split_segment_at(&mut self, segment_id: SegmentId, position: Point3) -> (mid: NodeId)
        requires
            old(self)@.wf(),
            old(self)@.segments.contains_key(segment_id.0),
            old(self)@.next_node_id < u32::MAX,
            old(self)@.next_segment_id < u32::MAX - 1,
        ensures
            mid.0 == old(self)@.next_node_id,
            final(self)@ == old(self)@.split_segment_at(segment_id, position),
            final(self)@.wf(),
            final(self)@.keeps_nodes_of(old(self)@),
            old(self)@.closed() ==> final(self)@.closed(),
    {
        let (ends, road_type, width) = match self.segments.get(&segment_id.0) {
            Some(segment) => (segment.nodes, segment.road_type, segment.width),
            None => ([NodeId(0), NodeId(0)], RoadType::Dirt, 0),
        };
        proof {
            lemma_split_segment(old(self)@, segment_id, position);
        }
        self.remove_segment(segment_id);
        let mid = self.add_node(position);
        self.add_segment(ends[0], mid, Vec::new(), road_type, width);
        self.add_segment(mid, ends[1], Vec::new(), road_type, width);
        mid
    }

    /// The nearest node strictly within `max_distance` of `position`; of
    /// several equally near, the one with the lowest id.
    fn nearest_node(&self, position: Point3, max_distance: i32) -> (r: Option<NodeId>)
        requires
            self@.wf(),
        ensures
            r == self@.nearest(position, max_distance),
            match r {
                Some(id) => self@.is_nearest(id.0, position, max_distance),
                None => forall|m: u32| #[trigger]
                    self@.nodes.contains_key(m) ==> self@.node_dist(m, position) >= max_distance
                        * max_distance,
            },
    {
        proof {
            lemma_square_bound(max_distance as int);
        }
        let max_dist_sq: i128 = (max_distance as i128) * (max_distance as i128);
        let mut best: Option<(u32, i128)> = None;
        let mut id: u32 = 0;
        while id < self.next_node_id
            invariant
                id <= self.next_node_id,
                max_dist_sq == max_distance * max_distance,
                match best {
                    Some((b, d)) => {
                        &&& self@.nodes.contains_key(b)
                        &&& b < id
                        &&& d == self@.node_dist(b, position)
                        &&& d < max_dist_sq
                        &&& forall|m: u32| #[trigger]
                            self@.nodes.contains_key(m) && m < id ==> d < self@.node_dist(
                                m,
                                position,
                            ) || (d == self@.node_dist(m, position) && b <= m)
                    },
                    None => forall|m: u32| #[trigger]
                        self@.nodes.contains_key(m) && m < id ==> self@.node_dist(m, position)
                            >= max_dist_sq,
                },
            decreases self.next_node_id - id,
        {
            if let Some(node) = self.nodes.get(&id) {
                let dist_sq = node.position.distance_squared(&position);
                assert(self@.nodes.contains_key(id) && dist_sq == self@.node_dist(id, position));
                if dist_sq < max_dist_sq {
                    let closer = match best {
                        Some((_, d)) => dist_sq < d,
                        None => true,
                    };
                    if closer {
                        best = Some((id, dist_sq));
                    }
                }
            }
            id += 1;
        }
        match best {
            Some((b, _)) => {
                assert(self@.is_nearest(b, position, max_distance));
                Some(NodeId(b))
            },
            None => None,
        }
    }

    /// The points that the curve of a segment runs through, from end to
    /// end. None for an unknown segment or one with a missing end.
    fn segment_path(&self, id: SegmentId) -> (r: Option<Vec<Point3>>)
        ensures
            r is Some <==> self@.has_ends(id.0),
            r is Some ==> r.unwrap()@ == self@.path(id.0) && r.unwrap().len() >= 2,
    {
        let segment = match self.segments.get(&id.0) {
            Some(segment) => segment,
            None => {
                return None;
            },
        };
        let from = match self.nodes.get(&segment.nodes[0].0) {
            Some(node) => node.position,
            None => {
                return None;
            },
        };
        let to = match self.nodes.get(&segment.nodes[1].0) {
            Some(node) => node.position,
            None => {
                return None;
            },
        };
        let mut path: Vec<Point3> = Vec::new();
        path.push(from);
        let mut i: usize = 0;
        while i < segment.control_points.len()
            invariant
                i <= segment.control_points.len(),
                path@ == seq![from] + segment.control_points@.take(i as int),
            decreases segment.control_points.len() - i,
        {
            path.push(segment.control_points[i]);
            assert(path@ =~= seq![from] + segment.control_points@.take(i + 1));
            i += 1;
        }
        path.push(to);
        assert(segment.control_points@.take(i as int) =~= segment.control_points@);
        assert(path@ =~= self@.path(id.0));
        Some(path)
    }

    /// How wide the junction at a node is: as wide as the widest segment
    /// that ends there. Nothing for an unknown node.
    fn junction_width(&self, id: NodeId) -> (w: i32)
        ensures
            w == (if self@.nodes.contains_key(id.0) {
                self@.widest_at(id.0, self@.nodes[id.0].segments.len())
            } else {
                0
            }),
    {
        let node = match self.nodes.get(&id.0) {
            Some(node) => node,
            None => {
                return 0;
            },
        };
        let mut widest: i32 = 0;
        let mut i: usize = 0;
        while i < node.segments.len()
            invariant
                i <= node.segments.len(),
                self@.nodes.contains_key(id.0),
                node.segments@ == self@.nodes[id.0].segments,
                widest == self@.widest_at(id.0, i as nat),
            decreases node.segments.len() - i,
        {
            if let Some(segment) = self.segments.get(&node.segments[i].0) {
                if segment.width > widest {
                    widest = segment.width;
                }
            }
            i += 1;
        }
        widest
    }

    /// The surface of the junction at a node: that of the first segment
    /// listed there. None for an unknown node or one without segments.
    fn junction_surface(&self, id: NodeId) -> (surface: Option<RoadType>)
        ensures
            surface == (if self@.nodes.contains_key(id.0) {
                self@.surface_from(id.0, 0)
            } else {
                None
            }),
    {
        let node = match self.nodes.get(&id.0) {
            Some(node) => node,
            None => {
                return None;
            },
        };
        let mut i: usize = 0;
        while i < node.segments.len()
            invariant
                i <= node.segments.len(),
                self@.nodes.contains_key(id.0),
                node.segments@ == self@.nodes[id.0].segments,
                self@.surface_from(id.0, 0) == self@.surface_from(id.0, i as nat),
            decreases node.segments.len() - i,
        {
            if let Some(segment) = self.segments.get(&node.segments[i].0) {
                return Some(segment.road_type);
            }
            i += 1;
        }
        None
    }

    /// How many segments there are.
    fn segment_count(&self) -> (n: usize)
        ensures
            n == self@.segments.dom().len(),
            n == 0 <==> self@.segments.dom() =~= Set::<u32>::empty(),
    {
        assert(self@.segments.dom() =~= self.segments@.dom());
        self.segments.len()
    }

    /// Whether enough ids are left to commit one more road.
    fn has_room_for_road(&self) -> (r: bool)
        ensures
            r == self@.room_for_road(),
    {
        self.next_segment_id <= (u32::MAX - 1) / 4 && self.next_node_id <= u32::MAX - 2
            - self.next_segment_id
    }

    /// The ids of all segments, ascending.
    fn segment_ids(&self) -> (r: Vec<SegmentId>)
        ensures
            r@ == self@.segment_ids(),
    {
        let mut r: Vec<SegmentId> = Vec::new();
        let mut id: u32 = 0;
        while id < self.next_segment_id
            invariant
                id <= self.next_segment_id,
                r@ == ids_below(self@.segments, id as nat),
            decreases self.next_segment_id - id,
        {
            if self.segments.contains_key(&id) {
                r.push(SegmentId(id));
            }
            id += 1;
        }
        r
    }

    fn node(&self, id: NodeId) -> (r: Option<&RoadNode>)
        ensures
            match r {
                Some(n) => self@.nodes.contains_key(id.0) && n@ == self@.nodes[id.0],
                None => !self@.nodes.contains_key(id.0),
            },
    {
        self.nodes.get(&id.0)
    }

    fn segment(&self, id: SegmentId) -> (r: Option<&RoadSegment>)
        ensures
            match r {
                Some(s) => self@.segments.contains_key(id.0) && s@ == self@.segments[id.0],
                None => !self@.segments.contains_key(id.0),
            },
    {
        self.segments.get(&id.0)
    }

    /// All nodes, by the number of their id.
    fn nodes(&self) -> (r: &HashMap<u32, RoadNode>)
        ensures
            r@.map_values(|n: RoadNode| n@) == self@.nodes,
    {
        &self.nodes
    }

    /// All segments, by the number of their id.
    fn segments(&self) -> (r: &HashMap<u32, RoadSegment>)
        ensures
            r@.map_values(|s: RoadSegment| s@) == self@.segments,
    {
        &self.segments
    }
}

/// The road network graph. Whatever is done to it, its nodes' lists and
/// its segments agree as `NetworkView::wf` says.
pub struct RoadNetwork {
    graph: Graph,
}

impl View for RoadNetwork {
    type V = NetworkView;

    closed spec fn view(&self) -> NetworkView {
        self.graph@
    }
}

impl Default for RoadNetwork {
    fn default() -> (r: Self)
        ensures
            r@ == NetworkView::empty(),
    {
        RoadNetwork::new()
    }
}

impl RoadNetwork {
    #[verifier::type_invariant]
    pub open spec fn well_formed(&self) -> bool {
        self@.wf()
    }

    /// Takes the graph out, leaving an empty one in its place.
    fn take(&mut self) -> (g: Graph)
        ensures
            g@ == old(self)@,
            g@.wf(),
    {
        proof {
            use_type_invariant(&*self);
        }
        let mut g = Graph::new();
        core::mem::swap(&mut g, &mut self.graph);
        g
    }

    /// An empty network.
    pub fn new() -> (r: Self)
        ensures
            r@ == NetworkView::empty(),
    {
        RoadNetwork { graph: Graph::new() }
    }

    /// Adds a node at `position` and returns its id.
    pub fn add_node(&mut self, position: Point3) -> (id: NodeId)
        requires
            old(self)@.next_node_id < u32::MAX,
        ensures
            id.0 == old(self)@.next_node_id,
            final(self)@ == old(self)@.add_node(position),
            final(self)@.wf(),
            final(self)@.keeps_nodes_of(old(self)@),
            old(self)@.closed() ==> final(self)@.closed(),
    {
        let mut g = self.take();
        let id = g.add_node(position);
        self.graph = g;
        id
    }

    /// Adds a segment from `from` to `to` and returns its id. The segment is
    /// entered in the list of each end that exists; an end that does not
    /// exist is left dangling.
    pub fn add_segment(
        &mut self,
        from: NodeId,
        to: NodeId,
        control_points: Vec<Point3>,
        road_type: RoadType,
        width: i32,
    ) -> (id: SegmentId)
        requires
            old(self)@.next_segment_id < u32::MAX,
        ensures
            id.0 == old(self)@.next_segment_id,
            final(self)@ == old(self)@.add_segment(from, to, control_points@, road_type, width),
            final(self)@.wf(),
            final(self)@.keeps_nodes_of(old(self)@),
            old(self)@.closed() && old(self)@.has_node(from) && old(self)@.has_node(to)
                ==> final(self)@.closed(),
    {
        let mut g = self.take();
        let id = g.add_segment(from, to, control_points, road_type, width);
        self.graph = g;
        id
    }

    /// Removes a segment and takes it off the lists of its ends. Nodes are
    /// never removed. An unknown id changes nothing.
    pub fn remove_segment(&mut self, id: SegmentId)
        ensures
            final(self)@ == old(self)@.remove_segment(id),
            final(self)@.wf(),
            final(self)@.keeps_nodes_of(old(self)@),
            old(self)@.closed() ==> final(self)@.closed(),
    {
        let mut g = self.take();
        g.remove_segment(id);
        self.graph = g;
    }

    /// Splits segment `segment_id` at `position`: the segment goes, a node at
    /// `position` comes, and two straight segments join it to the old ends.
    /// Returns the new node's id.
    pub fn split_segment_at(&mut self, segment_id: SegmentId, position: Point3) -> (mid: NodeId)
        requires
            old(self)@.segments.contains_key(segment_id.0),
            old(self)@.next_node_id < u32::MAX,
            old(self)@.next_segment_id < u32::MAX - 1,
        ensures
            mid.0 == old(self)@.next_node_id,
            final(self)@ == old(self)@.split_segment_at(segment_id, position),
            final(self)@.wf(),
            final(self)@.keeps_nodes_of(old(self)@),
            old(self)@.closed() ==> final(self)@.closed(),
            !final(self)@.segments.contains_key(segment_id.0),
            final(self)@.segments.contains_key(old(self)@.next_segment_id),
            final(self)@.segments.contains_key((old(self)@.next_segment_id + 1) as u32),
            final(self)@.segments[old(self)@.next_segment_id].from
                == old(self)@.segments[segment_id.0].from,
            final(self)@.segments[old(self)@.next_segment_id].to == mid,
            final(self)@.segments[(old(self)@.next_segment_id + 1) as u32].from == mid,
            final(self)@.segments[(old(self)@.next_segment_id + 1) as u32].to
                == old(self)@.segments[segment_id.0].to,
            old(self)@.has_ends(segment_id.0) ==> final(self)@.nodes[mid.0].segments.len() == 2,
    {
        let mut g = self.take();
        proof {
            lemma_split_segment(g@, segment_id, position);
        }
        let mid = g.split_segment_at(segment_id, position);
        self.graph = g;
        mid
    }

    /// The nearest node strictly within `max_distance` of `position`; of
    /// several equally near, the one with the lowest id.
    pub fn nearest_node(&self, position: Point3, max_distance: i32) -> (r: Option<NodeId>)
        ensures
            r == self@.nearest(position, max_distance),
            match r {
                Some(id) => self@.is_nearest(id.0, position, max_distance),
                None => forall|m: u32| #[trigger]
                    self@.nodes.contains_key(m) ==> self@.node_dist(m, position) >= max_distance
                        * max_distance,
            },
    {
        proof {
            use_type_invariant(self);
        }
        self.graph.nearest_node(position, max_distance)
    }

    /// The points that the curve of a segment runs through, from end to
    /// end. None for an unknown segment or one with a missing end.
    pub fn segment_path(&self, id: SegmentId) -> (r: Option<Vec<Point3>>)
        ensures
            r is Some <==> self@.has_ends(id.0),
            r is Some ==> r.unwrap()@ == self@.path(id.0) && r.unwrap().len() >= 2,
    {
        self.graph.segment_path(id)
    }

    /// How wide the junction at a node is: as wide as the widest segment
    /// that ends there. Nothing for an unknown node.
    pub fn junction_width(&self, id: NodeId) -> (w: i32)
        ensures
            w == (if self@.nodes.contains_key(id.0) {
                self@.widest_at(id.0, self@.nodes[id.0].segments.len())
            } else {
                0
            }),
    {
        self.graph.junction_width(id)
    }

    /// The surface of the junction at a node: that of the first segment
    /// listed there. None for an unknown node or one without segments.
    pub fn junction_surface(&self, id: NodeId) -> (surface: Option<RoadType>)
        ensures
            surface == (if self@.nodes.contains_key(id.0) {
                self@.surface_from(id.0, 0)
            } else {
                None
            }),
    {
        self.graph.junction_surface(id)
    }

    /// How many segments there are.
    pub fn segment_count(&self) -> (n: usize)
        ensures
            n == self@.segments.dom().len(),
            n == 0 <==> self@.segments.dom() =~= Set::<u32>::empty(),
    {
        self.graph.segment_count()
    }

    /// Whether enough ids are left to commit one more road.
    pub fn has_room_for_road(&self) -> (r: bool)
        ensures
            r == self@.room_for_road(),
    {
        self.graph.has_room_for_road()
    }

    /// The ids of all segments, ascending.
    pub fn segment_ids(&self) -> (r: Vec<SegmentId>)
        ensures
            r@ == self@.segment_ids(),
    {
        self.graph.segment_ids()
    }

    pub fn node(&self, id: NodeId) -> (r: Option<&RoadNode>)
        ensures
            match r {
                Some(n) => self@.nodes.contains_key(id.0) && n@ == self@.nodes[id.0],
                None => !self@.nodes.contains_key(id.0),
            },
    {
        self.graph.node(id)
    }

    pub fn segment(&self, id: SegmentId) -> (r: Option<&RoadSegment>)
        ensures
            match r {
                Some(s) => self@.segments.contains_key(id.0) && s@ == self@.segments[id.0],
                None => !self@.segments.contains_key(id.0),
            },
    {
        self.graph.segment(id)
    }

    /// All nodes, by the number of their id.
    pub fn nodes(&self) -> (r: &HashMap<u32, RoadNode>)
        ensures
            r@.map_values(|n: RoadNode| n@) == self@.nodes,
    {
        self.graph.nodes()
    }

    /// All segments, by the number of their id.
    pub fn segments(&self) -> (r: &HashMap<u32, RoadSegment>)
        ensures
            r@.map_values(|s: RoadSegment| s@) == self@.segments,
    {
        self.graph.segments()
    }
}

/// Adding a node keeps the graph consistent.
pub proof fn lemma_add_node_wf(v: NetworkView, position: Point3)
    requires
        v.wf(),
        v.next_node_id < u32::MAX,
    ensures
        v.add_node(position).wf(),
        v.closed() ==> v.add_node(position).closed(),
        v.add_node(position).keeps_nodes_of(v),
{
    let w = v.add_node(position);
    assert forall|n: u32, i: int|
        w.nodes.contains_key(n) && 0 <= i < w.nodes[n].segments.len() implies w.touches(
        #[trigger] w.nodes[n].segments[i],
        n,
    ) by {
        assert(v.nodes.contains_key(n));
        assert(v.touches(v.nodes[n].segments[i], n));
    }
    if v.closed() {
        assert forall|s: u32| #[trigger] w.segments.contains_key(s) implies w.listed(
            s,
            w.segments[s].from,
        ) && w.listed(s, w.segments[s].to) by {
            assert(v.listed(s, v.segments[s].from));
            assert(v.listed(s, v.segments[s].to));
        }
    }
}

/// What `without` keeps was there before and is not the id taken out.
pub proof fn lemma_without_subset(s: Seq<SegmentId>, id: SegmentId)
    ensures
        forall|i: int|
            0 <= i < without(s, id).len() ==> (#[trigger] without(s, id)[i]) != id && s.contains(
                without(s, id)[i],
            ),
    decreases s.len(),
{
    if s.len() > 0 {
        lemma_without_subset(s.drop_last(), id);
        let w = without(s, id);
        assert forall|i: int| 0 <= i < w.len() implies (#[trigger] w[i]) != id && s.contains(
            w[i],
        ) by {
            if s.last() != id && i == w.len() - 1 {
                assert(s[s.len() - 1] == w[i]);
            } else {
                let x = without(s.drop_last(), id)[i];
                assert(s.drop_last().contains(x));
                let j = choose|j: int| 0 <= j < s.drop_last().len() && s.drop_last()[j] == x;
                assert(s[j] == x);
            }
        }
    }
}

/// `without` keeps every other id.
pub proof fn lemma_without_keeps(s: Seq<SegmentId>, id: SegmentId, x: SegmentId)
    requires
        s.contains(x),
        x != id,
    ensures
        without(s, id).contains(x),
    decreases s.len(),
{
    let j = choose|j: int| 0 <= j < s.len() && s[j] == x;
    let w = without(s, id);
    if j == s.len() - 1 {
        assert(w[w.len() - 1] == x);
    } else {
        assert(s.drop_last()[j] == x);
        lemma_without_keeps(s.drop_last(), id, x);
        let p = without(s.drop_last(), id);
        let i = choose|i: int| 0 <= i < p.len() && p[i] == x;
        assert(w[i] == x);
    }
}

/// Entering a segment in a node's list changes that list alone, and only by
/// one entry at its end.
pub proof fn lemma_register(v: NetworkView, n: NodeId, s: SegmentId)
    ensures
        v.register(n, s).segments == v.segments,
        v.register(n, s).nodes.dom() == v.nodes.dom(),
        v.register(n, s).next_node_id == v.next_node_id,
        v.register(n, s).next_segment_id == v.next_segment_id,
        forall|m: u32| #[trigger]
            v.nodes.contains_key(m) ==> v.register(n, s).nodes[m].position == v.nodes[m].position,
        forall|m: u32| #[trigger]
            v.nodes.contains_key(m) && m != n.0 ==> v.register(n, s).nodes[m] == v.nodes[m],
        v.nodes.contains_key(n.0) ==> v.register(n, s).nodes[n.0].segments
            == v.nodes[n.0].segments.push(s),
{
    assert(v.register(n, s).nodes.dom() =~= v.nodes.dom());
}

/// Taking a segment off a node's list changes that list alone.
pub proof fn lemma_unregister(v: NetworkView, n: NodeId, s: SegmentId)
    ensures
        v.unregister(n, s).segments == v.segments,
        v.unregister(n, s).nodes.dom() == v.nodes.dom(),
        v.unregister(n, s).next_node_id == v.next_node_id,
        v.unregister(n, s).next_segment_id == v.next_segment_id,
        forall|m: u32| #[trigger]
            v.nodes.contains_key(m) ==> v.unregister(n, s).nodes[m].position
                == v.nodes[m].position,
        forall|m: u32| #[trigger]
            v.nodes.contains_key(m) && m != n.0 ==> v.unregister(n, s).nodes[m] == v.nodes[m],
        v.nodes.contains_key(n.0) ==> v.unregister(n, s).nodes[n.0].segments == without(
            v.nodes[n.0].segments,
            s,
        ),
{
    assert(v.unregister(n, s).nodes.dom() =~= v.nodes.dom());
}

/// Adding a segment keeps the graph consistent, and closed if both ends exist.
pub proof fn lemma_add_segment_wf(
    v: NetworkView,
    from: NodeId,
    to: NodeId,
    control_points: Seq<Point3>,
    road_type: RoadType,
    width: i32,
)
    requires
        v.wf(),
        v.next_segment_id < u32::MAX,
    ensures
        v.add_segment(from, to, control_points, road_type, width).wf(),
        v.closed() && v.nodes.contains_key(from.0) && v.nodes.contains_key(to.0) ==> v.add_segment(
            from,
            to,
            control_points,
            road_type,
            width,
        ).closed(),
        v.add_segment(from, to, control_points, road_type, width).keeps_nodes_of(v),
{
    let id = SegmentId(v.next_segment_id);
    let v1 = NetworkView {
        segments: v.segments.insert(
            id.0,
            SegmentView { from, to, control_points, road_type, width },
        ),
        next_segment_id: (v.next_segment_id + 1) as u32,
        ..v
    };
    let v2 = v1.register(from, id);
    let w = v2.register(to, id);
    lemma_register(v1, from, id);
    lemma_register(v2, to, id);
    assert(!v.segments.contains_key(id.0));
    assert forall|n: u32, i: int|
        w.nodes.contains_key(n) && 0 <= i < w.nodes[n].segments.len() implies w.touches(
        #[trigger] w.nodes[n].segments[i],
        n,
    ) by {
        let x = w.nodes[n].segments[i];
        assert(v.nodes.contains_key(n));
        if x != id {
            assert(i < v2.nodes[n].segments.len());
            assert(v2.nodes[n].segments[i] == x);
            assert(i < v1.nodes[n].segments.len());
            assert(v1.nodes[n].segments[i] == x);
            assert(v.touches(v.nodes[n].segments[i], n));
        } else {
            if i < v.nodes[n].segments.len() {
                assert(v2.nodes[n].segments[i] == x);
                assert(v1.nodes[n].segments[i] == x);
                assert(v.touches(v.nodes[n].segments[i], n));
            }
        }
    }
    if v.closed() && v.nodes.contains_key(from.0) && v.nodes.contains_key(to.0) {
        assert forall|s: u32| #[trigger] w.segments.contains_key(s) implies w.listed(
            s,
            w.segments[s].from,
        ) && w.listed(s, w.segments[s].to) by {
            if s == id.0 {
                let lf = v2.nodes[from.0].segments;
                assert(lf[lf.len() - 1] == id);
                assert(v2.nodes[from.0].segments.contains(id));
                if to.0 == from.0 {
                    let lt = w.nodes[to.0].segments;
                    assert(lt[lt.len() - 1] == id);
                } else {
                    assert(w.nodes[from.0] == v2.nodes[from.0]);
                    let lt = w.nodes[to.0].segments;
                    assert(lt[lt.len() - 1] == id);
                }
                assert(w.listed(s, from));
                assert(w.listed(s, to));
            } else {
                let e = v.segments[s].from;
                let f = v.segments[s].to;
                assert(v.listed(s, e) && v.listed(s, f));
                lemma_listed_after_register(v1, from, id, s, e);
                lemma_listed_after_register(v2, to, id, s, e);
                lemma_listed_after_register(v1, from, id, s, f);
                lemma_listed_after_register(v2, to, id, s, f);
            }
        }
    }
}

/// A list entry survives the entering of another.
pub proof fn lemma_listed_after_register(v: NetworkView, n: NodeId, x: SegmentId, s: u32, e: NodeId)
    requires
        v.listed(s, e),
    ensures
        v.register(n, x).listed(s, e),
{
    lemma_register(v, n, x);
    let l = v.nodes[e.0].segments;
    let i = choose|i: int| 0 <= i < l.len() && l[i] == SegmentId(s);
    assert(v.register(n, x).nodes[e.0].segments[i] == SegmentId(s));
}

/// Removing a segment keeps the graph consistent, and closed if it was.
pub proof fn lemma_remove_segment_wf(v: NetworkView, id: SegmentId)
    requires
        v.wf(),
    ensures
        v.remove_segment(id).wf(),
        v.closed() ==> v.remove_segment(id).closed(),
        !v.remove_segment(id).segments.contains_key(id.0),
        v.remove_segment(id).nodes.dom() == v.nodes.dom(),
        v.remove_segment(id).next_node_id == v.next_node_id,
        v.remove_segment(id).next_segment_id == v.next_segment_id,
        v.remove_segment(id).segments == v.segments.remove(id.0),
        v.remove_segment(id).keeps_nodes_of(v),
{
    if v.segments.contains_key(id.0) {
        let seg = v.segments[id.0];
        let v1 = NetworkView { segments: v.segments.remove(id.0), ..v };
        let v2 = v1.unregister(seg.from, id);
        let w = v2.unregister(seg.to, id);
        lemma_unregister(v1, seg.from, id);
        lemma_unregister(v2, seg.to, id);
        assert forall|n: u32, i: int|
            w.nodes.contains_key(n) && 0 <= i < w.nodes[n].segments.len() implies w.touches(
            #[trigger] w.nodes[n].segments[i],
            n,
        ) by {
            let x = w.nodes[n].segments[i];
            lemma_without_subset(v2.nodes[n].segments, id);
            lemma_without_subset(v1.nodes[n].segments, id);
            // x was in the node's list before
            assert(v2.nodes[n].segments.contains(x));
            let j2 = choose|j: int|
                0 <= j < v2.nodes[n].segments.len() && v2.nodes[n].segments[j] == x;
            assert(v1.nodes[n].segments.contains(v2.nodes[n].segments[j2]));
            let j = choose|j: int|
                0 <= j < v.nodes[n].segments.len() && v.nodes[n].segments[j] == x;
            assert(v.touches(v.nodes[n].segments[j], n));
            if x == id {
                // then the node is one of the ends, and its list was filtered
                assert(n == seg.from.0 || n == seg.to.0);
                if n == seg.to.0 {
                    assert(w.nodes[n].segments[i] != id);
                } else {
                    assert(w.nodes[n] == v2.nodes[n]);
                    assert(v2.nodes[n].segments[i] != id);
                }
            }
        }
        if v.closed() {
            assert forall|s: u32| #[trigger] w.segments.contains_key(s) implies w.listed(
                s,
                w.segments[s].from,
            ) && w.listed(s, w.segments[s].to) by {
                let e = v.segments[s].from;
                let f = v.segments[s].to;
                assert(v.listed(s, e) && v.listed(s, f));
                lemma_listed_after_unregister(v1, seg.from, id, s, e);
                lemma_listed_after_unregister(v2, seg.to, id, s, e);
                lemma_listed_after_unregister(v1, seg.from, id, s, f);
                lemma_listed_after_unregister(v2, seg.to, id, s, f);
            }
        }
        assert(w.segments =~= v.segments.remove(id.0));
    } else {
        assert(v.segments =~= v.segments.remove(id.0));
    }
}

/// A list entry survives the taking out of another.
pub proof fn lemma_listed_after_unregister(
    v: NetworkView,
    n: NodeId,
    x: SegmentId,
    s: u32,
    e: NodeId,
)
    requires
        v.listed(s, e),
        s != x.0,
    ensures
        v.unregister(n, x).listed(s, e),
{
    lemma_unregister(v, n, x);
    if e.0 == n.0 {
        lemma_without_keeps(v.nodes[e.0].segments, x, SegmentId(s));
    }
}

/// After a split of a segment whose ends exist, the segment is gone, two new
/// segments lead from its first end to the new node and from the new node to
/// its second end, and the new node lists exactly these two.
pub proof fn lemma_split_segment(v: NetworkView, id: SegmentId, position: Point3)
    requires
        v.wf(),
        v.segments.contains_key(id.0),
        v.next_node_id < u32::MAX,
        v.next_segment_id < u32::MAX - 1,
    ensures
        ({
            let w = v.split_segment_at(id, position);
            let old_segment = v.segments[id.0];
            let mid = NodeId(v.next_node_id);
            let a = v.next_segment_id;
            let b = (v.next_segment_id + 1) as u32;
            &&& w.wf()
            &&& v.closed() ==> w.closed()
            &&& !w.segments.contains_key(id.0)
            &&& w.segments.contains_key(a)
            &&& w.segments.contains_key(b)
            &&& w.segments[a] == (SegmentView {
                from: old_segment.from,
                to: mid,
                control_points: Seq::<Point3>::empty(),
                road_type: old_segment.road_type,
                width: old_segment.width,
            })
            &&& w.segments[b] == (SegmentView {
                from: mid,
                to: old_segment.to,
                control_points: Seq::<Point3>::empty(),
                road_type: old_segment.road_type,
                width: old_segment.width,
            })
            &&& w.segments.dom() == v.segments.dom().remove(id.0).insert(a).insert(b)
            &&& w.nodes.dom() == v.nodes.dom().insert(mid.0)
            &&& w.nodes[mid.0].position == position
            &&& w.next_node_id == v.next_node_id + 1
            &&& w.next_segment_id == v.next_segment_id + 2
            &&& w.keeps_nodes_of(v)
            &&& v.nodes.contains_key(old_segment.from.0) && v.nodes.contains_key(old_segment.to.0)
                ==> w.nodes[mid.0].segments == seq![SegmentId(a), SegmentId(b)]
        }),
{
    let s = v.segments[id.0];
    let mid = NodeId(v.next_node_id);
    let a = SegmentId(v.next_segment_id);
    let b = SegmentId((v.next_segment_id + 1) as u32);
    let v1 = v.remove_segment(id);
    lemma_remove_segment_wf(v, id);
    let v2 = v1.add_node(position);
    lemma_add_node_wf(v1, position);
    let v3 = v2.add_segment(s.from, mid, Seq::empty(), s.road_type, s.width);
    lemma_add_segment_wf(v2, s.from, mid, Seq::empty(), s.road_type, s.width);
    let w = v3.add_segment(mid, s.to, Seq::empty(), s.road_type, s.width);
    lemma_add_segment_wf(v3, mid, s.to, Seq::empty(), s.road_type, s.width);
    let v2a = NetworkView {
        segments: v2.segments.insert(
            a.0,
            SegmentView {
                from: s.from,
                to: mid,
                control_points: Seq::empty(),
                road_type: s.road_type,
                width: s.width,
            },
        ),
        next_segment_id: (v2.next_segment_id + 1) as u32,
        ..v2
    };
    lemma_register(v2a, s.from, a);
    lemma_register(v2a.register(s.from, a), mid, a);
    let v3a = NetworkView {
        segments: v3.segments.insert(
            b.0,
            SegmentView {
                from: mid,
                to: s.to,
                control_points: Seq::empty(),
                road_type: s.road_type,
                width: s.width,
            },
        ),
        next_segment_id: (v3.next_segment_id + 1) as u32,
        ..v3
    };
    lemma_register(v3a, mid, b);
    lemma_register(v3a.register(mid, b), s.to, b);
    assert(w.segments.dom() =~= v.segments.dom().remove(id.0).insert(a.0).insert(b.0));
    assert(w.nodes.dom() =~= v.nodes.dom().insert(mid.0));
    if v.closed() {
        assert(v.listed(id.0, s.from) && v.listed(id.0, s.to));
    }
    if v.nodes.contains_key(s.from.0) && v.nodes.contains_key(s.to.0) {
        assert(s.from.0 != mid.0 && s.to.0 != mid.0);
        assert(v2.nodes[mid.0].segments =~= Seq::<SegmentId>::empty());
        assert(v3.nodes[mid.0].segments =~= seq![a]);
        assert(w.nodes[mid.0].segments =~= seq![a, b]);
    }
}

/// The ascending ids are exactly the keys below the bound, each once.
pub proof fn lemma_ids_below(segments: Map<u32, SegmentView>, bound: nat)
    requires
        bound <= u32::MAX,
    ensures
        ids_below(segments, bound).len() <= bound,
        forall|i: int|
            0 <= i < ids_below(segments, bound).len() ==> segments.contains_key(
                (#[trigger] ids_below(segments, bound)[i]).0,
            ) && ids_below(segments, bound)[i].0 < bound,
        forall|i: int, j: int|
            0 <= i < j < ids_below(segments, bound).len() ==> (#[trigger] ids_below(
                segments,
                bound,
            )[i]).0 < (#[trigger] ids_below(segments, bound)[j]).0,
        forall|s: u32| #[trigger]
            segments.contains_key(s) && s < bound ==> ids_below(segments, bound).contains(
                SegmentId(s),
            ),
    decreases bound,
{
    if bound > 0 {
        let rest = ids_below(segments, (bound - 1) as nat);
        let all = ids_below(segments, bound);
        lemma_ids_below(segments, (bound - 1) as nat);
        assert forall|s: u32| #[trigger] segments.contains_key(s) && s < bound implies all.contains(
            SegmentId(s),
        ) by {
            if s < bound - 1 {
                assert(rest.contains(SegmentId(s)));
                let i = choose|i: int| 0 <= i < rest.len() && rest[i] == SegmentId(s);
                assert(all[i] == SegmentId(s));
            } else {
                assert(all[all.len() - 1] == SegmentId(s));
            }
        }
    }
}

} // verus!
