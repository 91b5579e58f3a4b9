//! The road tool: the waypoints placed so far, and what each input does to
//! them and to the network.

use crate::geometry::{dist_sq3, lemma_square_bound, Point3, UNIT};
use crate::resolver::SNAP_RADIUS;
use crate::road::{NetworkView, NodeId, RoadNetwork};
use vstd::prelude::*;

verus! {

/// The tool the player holds.
#[derive(Clone, Copy, Debug, PartialEq, Eq, Structural)]
pub enum ActiveTool {
    /// No tool.
    Idle,
    Road,
    Zone,
    Building,
}

impl Default for ActiveTool {
    fn default() -> (r: Self)
        ensures
            r == ActiveTool::Idle,
    {
        ActiveTool::Idle
    }
}

/// A waypoint closer than this to the one before it is a misclick: three
/// world units.
pub const MIN_SEGMENT_LENGTH: i32 = 3 * UNIT;

/// The waypoints of the road being placed, in order.
pub struct RoadPlacementState {
    pub points: Vec<Point3>,
}

impl Default for RoadPlacementState {
    fn default() -> (r: Self)
        ensures
            r.points@ == Seq::<Point3>::empty(),
    {
        RoadPlacementState { points: Vec::new() }
    }
}

/// What the player did this frame, as far as the road tool cares.
#[derive(Clone, Copy, Debug)]
pub struct PlacementInput {
    /// The cancel key went down.
    pub cancel: bool,
    /// The confirm key went down.
    pub confirm: bool,
    /// The pointer is over the interface, not the world.
    pub pointer_over_ui: bool,
    /// The primary button went down.
    pub click: bool,
    /// Where the pointer's ray meets the terrain, if it does.
    pub hit: Option<Point3>,
}

/// What an input did.
pub enum PlacementOutcome {
    /// Nothing changed.
    Ignored,
    /// The waypoints were dropped.
    Cancelled,
    /// The road was committed; its chain of nodes from start to end.
    Committed(Vec<NodeId>),
    /// A waypoint was added.
    Placed(Point3),
}

/// The waypoint a hit at `hit` stands for: the position of the node it snaps
/// to, else the hit itself.
pub open spec fn snapped(network: NetworkView, hit: Point3) -> Point3 {
    match network.nearest(hit, SNAP_RADIUS) {
        Some(id) => network.nodes[id.0].position,
        None => hit,
    }
}

/// Whether a waypoint at `point` would be too close to the last of `points`.
pub open spec fn too_close(points: Seq<Point3>, point: Point3) -> bool {
    points.len() > 0 && dist_sq3(point, points.last()) < MIN_SEGMENT_LENGTH * MIN_SEGMENT_LENGTH
}

/// The tool held after the road tool's key: none if the road tool was held,
/// else the road tool.
pub open spec fn toggled(tool: ActiveTool) -> ActiveTool {
    if tool == ActiveTool::Road {
        ActiveTool::Idle
    } else {
        ActiveTool::Road
    }
}

/// Switches the road tool on or off when its key goes down, and drops the
/// waypoints. Nothing happens while the interface has the keyboard.
pub fn toggle_road_tool(
    ui_wants_keyboard: bool,
    key_pressed: bool,
    active_tool: &mut ActiveTool,
    placement: &mut RoadPlacementState,
)
    ensures
        !ui_wants_keyboard && key_pressed ==> {
            &&& *final(active_tool) == toggled(*old(active_tool))
            &&& final(placement).points@ == Seq::<Point3>::empty()
        },
        ui_wants_keyboard || !key_pressed ==> {
            &&& *final(active_tool) == *old(active_tool)
            &&& final(placement).points@ == old(placement).points@
        },
{
    if ui_wants_keyboard {
        return ;
    }
    if key_pressed {
        *active_tool = match *active_tool {
            ActiveTool::Road => ActiveTool::Idle,
            _ => ActiveTool::Road,
        };
        placement.points.clear();
    }
}

impl RoadPlacementState {
    /// Adds a waypoint where the pointer hit the terrain, snapped to a
    /// nearby node. A waypoint too close to the last one is not added.
    pub fn place_point(&mut self, network: &RoadNetwork, hit: Point3) -> (placed: Option<Point3>)
        ensures
            placed == (if too_close(old(self).points@, snapped(network@, hit)) {
                None
            } else {
                Some(snapped(network@, hit))
            }),
            final(self).points@ == (match placed {
                Some(point) => old(self).points@.push(point),
                None => old(self).points@,
            }),
    {
        let point = match network.nearest_node(hit, SNAP_RADIUS) {
            Some(id) => match network.node(id) {
                Some(node) => node.position,
                None => hit,
            },
            None => hit,
        };
        let n = self.points.len();
        if n > 0 {
            let last = self.points[n - 1];
            proof {
                lemma_square_bound(MIN_SEGMENT_LENGTH as int);
            }
            let min_sq: i128 = (MIN_SEGMENT_LENGTH as i128) * (MIN_SEGMENT_LENGTH as i128);
            if point.distance_squared(&last) < min_sq {
                return None;
            }
        }
        self.points.push(point);
        Some(point)
    }

    /// Commits the road through the waypoints, if there are at least two and
    /// the network has ids to spare, and starts over with none. Otherwise
    /// nothing changes.
    pub fn confirm(&mut self, network: &mut RoadNetwork) -> (chain: Option<Vec<NodeId>>)
        ensures
            old(network)@.closed() ==> final(network)@.closed(),
            chain is Some <==> old(self).points.len() >= 2 && old(network)@.room_for_road(),
            match chain {
                Some(c) => (final(network)@, c@) == old(network)@.commit_road(old(self).points@)
                    && final(self).points@ == Seq::<Point3>::empty(),
                None => final(network)@ == old(network)@ && final(self).points@ == old(self).points@,
            },
    {
        if self.points.len() >= 2 && network.has_room_for_road() {
            let chain = network.commit_road(self.points.as_slice());
            self.points.clear();
            Some(chain)
        } else {
            None
        }
    }
}

/// Whether an input drops the waypoints: the road tool is held and the
/// cancel key went down.
pub open spec fn cancels(active_tool: ActiveTool, input: PlacementInput) -> bool {
    active_tool == ActiveTool::Road && input.cancel
}

/// Whether an input asks for the road to be committed and there are
/// waypoints enough: the road tool is held, the confirm key went down and
/// not the cancel key, and there are two waypoints or more.
pub open spec fn confirms(
    active_tool: ActiveTool,
    input: PlacementInput,
    points: Seq<Point3>,
) -> bool {
    active_tool == ActiveTool::Road && !input.cancel && input.confirm && points.len() >= 2
}

/// Whether an input commits the road: it confirms, and the network has ids
/// to spare.
pub open spec fn commits(
    active_tool: ActiveTool,
    input: PlacementInput,
    points: Seq<Point3>,
    network: NetworkView,
) -> bool {
    confirms(active_tool, input, points) && network.room_for_road()
}

/// Whether an input places a waypoint: the road tool is held, the input
/// neither cancels nor confirms, the world was clicked where the pointer
/// meets the terrain, and the waypoint is not too close to the last.
pub open spec fn places(
    active_tool: ActiveTool,
    input: PlacementInput,
    points: Seq<Point3>,
    network: NetworkView,
) -> bool {
    &&& active_tool == ActiveTool::Road
    &&& !input.cancel
    &&& !confirms(active_tool, input, points)
    &&& !input.pointer_over_ui
    &&& input.click
    &&& input.hit is Some
    &&& !too_close(points, snapped(network, input.hit.unwrap()))
}

/// One frame of the road tool. In order: nothing happens unless the road
/// tool is held; the cancel key drops the waypoints; the confirm key, with
/// two waypoints or more, commits the road; a click on the world, not on the
/// interface, places a waypoint where the pointer hit the terrain.
pub fn road_placement_input(
    active_tool: ActiveTool,
    input: PlacementInput,
    placement: &mut RoadPlacementState,
    network: &mut RoadNetwork,
) -> (outcome: PlacementOutcome)
    ensures
        old(network)@.closed() ==> final(network)@.closed(),
        outcome matches PlacementOutcome::Cancelled <==> cancels(active_tool, input),
        outcome matches PlacementOutcome::Committed(_) <==> commits(
            active_tool,
            input,
            old(placement).points@,
            old(network)@,
        ),
        outcome matches PlacementOutcome::Placed(_) <==> places(
            active_tool,
            input,
            old(placement).points@,
            old(network)@,
        ),
        match outcome {
            PlacementOutcome::Ignored => {
                &&& final(network)@ == old(network)@
                &&& final(placement).points@ == old(placement).points@
            },
            PlacementOutcome::Cancelled => {
                &&& final(network)@ == old(network)@
                &&& final(placement).points@ == Seq::<Point3>::empty()
            },
            PlacementOutcome::Committed(chain) => {
                &&& (final(network)@, chain@) == old(network)@.commit_road(old(placement).points@)
                &&& final(placement).points@ == Seq::<Point3>::empty()
            },
            PlacementOutcome::Placed(point) => {
                &&& final(network)@ == old(network)@
                &&& point == snapped(old(network)@, input.hit.unwrap())
                &&& final(placement).points@ == old(placement).points@.push(point)
            },
        },
{
    match active_tool {
        ActiveTool::Road => {},
        _ => {
            return PlacementOutcome::Ignored;
        },
    }
    if input.cancel {
        placement.points.clear();
        return PlacementOutcome::Cancelled;
    }
    if input.confirm && placement.points.len() >= 2 {
        return match placement.confirm(network) {
            Some(chain) => PlacementOutcome::Committed(chain),
            None => PlacementOutcome::Ignored,
        };
    }
    if input.pointer_over_ui || !input.click {
        return PlacementOutcome::Ignored;
    }
    match input.hit {
        Some(hit) => match placement.place_point(network, hit) {
            Some(point) => PlacementOutcome::Placed(point),
            None => PlacementOutcome::Ignored,
        },
        None => PlacementOutcome::Ignored,
    }
}

} // verus!
