use gilt_and_iron::geometry::Point3;
use gilt_and_iron::road::{
    NodeId, RoadNetwork, RoadSegment, RoadType, SegmentId, DEFAULT_ROAD_WIDTH,
};

fn p(x: i32, y: i32, z: i32) -> Point3 {
    Point3 { x, y, z }
}

fn ids(network: &RoadNetwork, node: u32) -> Vec<u32> {
    network.node(NodeId(node)).unwrap().segments.iter().map(|s| s.0).collect()
}

#[test]
fn new_network_is_empty() {
    let network = RoadNetwork::new();
    assert!(network.nodes().is_empty());
    assert!(network.segments().is_empty());
    assert_eq!(network.segment_count(), 0);
    assert!(network.segment_ids().is_empty());
    assert!(network.node(NodeId(0)).is_none());
    assert!(network.segment(SegmentId(0)).is_none());
    assert!(network.has_room_for_road());
    let by_default = RoadNetwork::default();
    assert!(by_default.nodes().is_empty());
    assert!(by_default.segments().is_empty());
}

#[test]
fn default_segment_is_a_dirt_road_two_units_wide() {
    let segment = RoadSegment::default();
    assert_eq!(segment.nodes, [NodeId(0), NodeId(0)]);
    assert!(segment.control_points.is_empty());
    assert_eq!(segment.road_type, RoadType::Dirt);
    assert_eq!(segment.width, 2000);
    assert_eq!(DEFAULT_ROAD_WIDTH, 2000);
    assert_eq!(RoadType::default(), RoadType::Dirt);
}

#[test]
fn nodes_get_ascending_ids_and_empty_lists() {
    let mut network = RoadNetwork::new();
    let a = network.add_node(p(1, 2, 3));
    let b = network.add_node(p(4, 5, 6));
    assert_eq!(a, NodeId(0));
    assert_eq!(b, NodeId(1));
    assert_eq!(network.nodes().len(), 2);
    assert_eq!(network.node(a).unwrap().position, p(1, 2, 3));
    assert_eq!(network.node(b).unwrap().position, p(4, 5, 6));
    assert!(network.node(a).unwrap().segments.is_empty());
    assert!(network.node(NodeId(2)).is_none());
}

#[test]
fn segment_is_entered_at_both_ends() {
    let mut network = RoadNetwork::new();
    let a = network.add_node(p(0, 0, 0));
    let b = network.add_node(p(10000, 0, 0));
    let c = network.add_node(p(10000, 0, 10000));
    let s0 = network.add_segment(a, b, vec![p(5000, 0, 1000)], RoadType::Gravel, 3000);
    let s1 = network.add_segment(b, c, Vec::new(), RoadType::Paved, 2000);
    assert_eq!(s0, SegmentId(0));
    assert_eq!(s1, SegmentId(1));
    assert_eq!(ids(&network, 0), vec![0]);
    assert_eq!(ids(&network, 1), vec![0, 1]);
    assert_eq!(ids(&network, 2), vec![1]);
    let segment = network.segment(s0).unwrap();
    assert_eq!(segment.nodes, [a, b]);
    assert_eq!(segment.control_points, vec![p(5000, 0, 1000)]);
    assert_eq!(segment.road_type, RoadType::Gravel);
    assert_eq!(segment.width, 3000);
    assert_eq!(network.segment_count(), 2);
    assert_eq!(network.segment_ids(), vec![s0, s1]);
}

#[test]
fn loop_segment_is_entered_twice_at_its_node() {
    let mut network = RoadNetwork::new();
    let a = network.add_node(p(0, 0, 0));
    let s = network.add_segment(a, a, Vec::new(), RoadType::Dirt, 2000);
    assert_eq!(ids(&network, 0), vec![0, 0]);
    network.remove_segment(s);
    assert!(ids(&network, 0).is_empty());
}

#[test]
fn segment_to_a_missing_node_is_kept_and_left_dangling() {
    let mut network = RoadNetwork::new();
    let a = network.add_node(p(0, 0, 0));
    let s = network.add_segment(a, NodeId(9), Vec::new(), RoadType::Dirt, 2000);
    assert_eq!(network.segment(s).unwrap().nodes, [a, NodeId(9)]);
    assert_eq!(ids(&network, 0), vec![0]);
    assert!(network.node(NodeId(9)).is_none());
    assert!(network.segment_path(s).is_none());
    let t = network.add_segment(NodeId(7), NodeId(8), Vec::new(), RoadType::Dirt, 2000);
    assert_eq!(t, SegmentId(1));
    assert_eq!(network.segment_count(), 2);
    assert_eq!(ids(&network, 0), vec![0]);
}

#[test]
fn removing_a_segment_takes_it_off_both_lists_and_keeps_the_nodes() {
    let mut network = RoadNetwork::new();
    let a = network.add_node(p(0, 0, 0));
    let b = network.add_node(p(10000, 0, 0));
    let c = network.add_node(p(10000, 0, 10000));
    let s0 = network.add_segment(a, b, Vec::new(), RoadType::Dirt, 2000);
    let s1 = network.add_segment(b, c, Vec::new(), RoadType::Dirt, 2000);
    let s2 = network.add_segment(c, a, Vec::new(), RoadType::Dirt, 2000);
    network.remove_segment(s1);
    assert!(network.segment(s1).is_none());
    assert!(network.segment(s0).is_some());
    assert!(network.segment(s2).is_some());
    assert_eq!(ids(&network, 0), vec![0, 2]);
    assert_eq!(ids(&network, 1), vec![0]);
    assert_eq!(ids(&network, 2), vec![2]);
    assert_eq!(network.nodes().len(), 3);
    assert_eq!(network.segment_ids(), vec![s0, s2]);
    network.remove_segment(s0);
    network.remove_segment(s2);
    assert_eq!(network.nodes().len(), 3);
    assert!(ids(&network, 0).is_empty());
    assert_eq!(network.segment_count(), 0);
}

#[test]
fn removing_an_unknown_segment_changes_nothing() {
    let mut network = RoadNetwork::new();
    let a = network.add_node(p(0, 0, 0));
    let b = network.add_node(p(10000, 0, 0));
    let s0 = network.add_segment(a, b, Vec::new(), RoadType::Dirt, 2000);
    network.remove_segment(SegmentId(5));
    assert_eq!(network.segment_ids(), vec![s0]);
    assert_eq!(ids(&network, 0), vec![0]);
    assert_eq!(ids(&network, 1), vec![0]);
}

#[test]
fn ids_are_not_reused_after_removal() {
    let mut network = RoadNetwork::new();
    let a = network.add_node(p(0, 0, 0));
    let b = network.add_node(p(10000, 0, 0));
    let s0 = network.add_segment(a, b, Vec::new(), RoadType::Dirt, 2000);
    network.remove_segment(s0);
    let s1 = network.add_segment(a, b, Vec::new(), RoadType::Dirt, 2000);
    assert_eq!(s1, SegmentId(1));
}

#[test]
fn split_replaces_a_segment_by_two_through_a_new_node() {
    let mut network = RoadNetwork::new();
    let a = network.add_node(p(0, 0, 0));
    let b = network.add_node(p(10000, 0, 0));
    let s0 = network.add_segment(a, b, vec![p(5000, 0, 3000)], RoadType::Paved, 4000);
    let mid = network.split_segment_at(s0, p(5000, 10, 0));
    assert_eq!(mid, NodeId(2));
    assert!(network.segment(s0).is_none());
    assert_eq!(network.segment_ids(), vec![SegmentId(1), SegmentId(2)]);
    let first = network.segment(SegmentId(1)).unwrap();
    let second = network.segment(SegmentId(2)).unwrap();
    assert_eq!(first.nodes, [a, mid]);
    assert_eq!(second.nodes, [mid, b]);
    assert!(first.control_points.is_empty());
    assert!(second.control_points.is_empty());
    assert_eq!(first.road_type, RoadType::Paved);
    assert_eq!(second.road_type, RoadType::Paved);
    assert_eq!(first.width, 4000);
    assert_eq!(second.width, 4000);
    assert_eq!(network.node(mid).unwrap().position, p(5000, 10, 0));
    assert_eq!(ids(&network, 2), vec![1, 2]);
    assert_eq!(network.node(mid).unwrap().segments.len(), 2);
    assert_eq!(ids(&network, 0), vec![1]);
    assert_eq!(ids(&network, 1), vec![2]);
}

#[test]
fn split_keeps_the_other_segments_of_the_ends() {
    let mut network = RoadNetwork::new();
    let a = network.add_node(p(0, 0, 0));
    let b = network.add_node(p(10000, 0, 0));
    let c = network.add_node(p(0, 0, 10000));
    network.add_segment(a, c, Vec::new(), RoadType::Dirt, 2000);
    let s1 = network.add_segment(a, b, Vec::new(), RoadType::Dirt, 2000);
    network.add_segment(b, c, Vec::new(), RoadType::Dirt, 2000);
    let mid = network.split_segment_at(s1, p(5000, 0, 0));
    assert_eq!(mid, NodeId(3));
    assert_eq!(ids(&network, 0), vec![0, 3]);
    assert_eq!(ids(&network, 1), vec![2, 4]);
    assert_eq!(ids(&network, 3), vec![3, 4]);
    assert_eq!(network.segment_count(), 4);
}

#[test]
fn nearest_node_is_the_closest_strictly_within_reach() {
    let mut network = RoadNetwork::new();
    network.add_node(p(0, 0, 0));
    network.add_node(p(2000, 0, 0));
    network.add_node(p(0, 0, 5000));
    assert_eq!(network.nearest_node(p(1500, 0, 0), 3000), Some(NodeId(1)));
    assert_eq!(network.nearest_node(p(400, 0, 0), 3000), Some(NodeId(0)));
    assert_eq!(network.nearest_node(p(0, 0, 4000), 3000), Some(NodeId(2)));
    assert_eq!(network.nearest_node(p(50000, 0, 0), 3000), None);
}

#[test]
fn node_exactly_at_reach_is_out_of_reach() {
    let mut network = RoadNetwork::new();
    network.add_node(p(0, 0, 0));
    assert_eq!(network.nearest_node(p(3000, 0, 0), 3000), None);
    assert_eq!(network.nearest_node(p(2999, 0, 0), 3000), Some(NodeId(0)));
    assert_eq!(network.nearest_node(p(0, 0, 0), 0), None);
    assert_eq!(network.nearest_node(p(0, 0, 0), 1), Some(NodeId(0)));
}

#[test]
fn nearest_node_counts_elevation() {
    let mut network = RoadNetwork::new();
    network.add_node(p(0, 5000, 0));
    network.add_node(p(2000, 0, 0));
    assert_eq!(network.nearest_node(p(0, 0, 0), 3000), Some(NodeId(1)));
    assert_eq!(network.nearest_node(p(0, 0, 0), 6000), Some(NodeId(1)));
    assert_eq!(network.nearest_node(p(0, 4000, 0), 6000), Some(NodeId(0)));
}

#[test]
fn of_nodes_equally_near_the_lowest_id_wins() {
    let mut network = RoadNetwork::new();
    network.add_node(p(1000, 0, 0));
    network.add_node(p(-1000, 0, 0));
    network.add_node(p(0, 0, 1000));
    assert_eq!(network.nearest_node(p(0, 0, 0), 3000), Some(NodeId(0)));
}

#[test]
fn nearest_node_of_an_empty_network_is_none() {
    let network = RoadNetwork::new();
    assert_eq!(network.nearest_node(p(0, 0, 0), i32::MAX), None);
}

#[test]
fn negative_reach_counts_by_its_square() {
    let mut network = RoadNetwork::new();
    network.add_node(p(0, 0, 0));
    assert_eq!(network.nearest_node(p(1000, 0, 0), -3000), Some(NodeId(0)));
}

#[test]
fn path_runs_from_end_to_end_through_the_control_points() {
    let mut network = RoadNetwork::new();
    let a = network.add_node(p(0, 1, 0));
    let b = network.add_node(p(10000, 2, 0));
    let s = network.add_segment(b, a, vec![p(7000, 0, 500), p(3000, 0, -500)], RoadType::Dirt, 2000);
    assert_eq!(
        network.segment_path(s).unwrap(),
        vec![p(10000, 2, 0), p(7000, 0, 500), p(3000, 0, -500), p(0, 1, 0)]
    );
    assert!(network.segment_path(SegmentId(4)).is_none());
}

#[test]
fn junction_is_as_wide_as_its_widest_road() {
    let mut network = RoadNetwork::new();
    let a = network.add_node(p(0, 0, 0));
    let b = network.add_node(p(10000, 0, 0));
    let c = network.add_node(p(0, 0, 10000));
    assert_eq!(network.junction_width(a), 0);
    assert_eq!(network.junction_surface(a), None);
    network.add_segment(a, b, Vec::new(), RoadType::Gravel, 2000);
    network.add_segment(a, c, Vec::new(), RoadType::Paved, 5000);
    network.add_segment(c, b, Vec::new(), RoadType::Dirt, 3000);
    assert_eq!(network.junction_width(a), 5000);
    assert_eq!(network.junction_width(b), 3000);
    assert_eq!(network.junction_width(c), 5000);
    assert_eq!(network.junction_surface(a), Some(RoadType::Gravel));
    assert_eq!(network.junction_surface(b), Some(RoadType::Gravel));
    assert_eq!(network.junction_surface(c), Some(RoadType::Paved));
    assert_eq!(network.junction_width(NodeId(9)), 0);
    assert_eq!(network.junction_surface(NodeId(9)), None);
}

#[test]
fn road_of_negative_width_does_not_narrow_a_junction() {
    let mut network = RoadNetwork::new();
    let a = network.add_node(p(0, 0, 0));
    let b = network.add_node(p(10000, 0, 0));
    network.add_segment(a, b, Vec::new(), RoadType::Dirt, -4000);
    assert_eq!(network.junction_width(a), 0);
    assert_eq!(network.junction_surface(a), Some(RoadType::Dirt));
}

#[test]
fn surfaces_have_their_colours() {
    assert_eq!(RoadType::Dirt.color(), [350, 250, 150, 1000]);
    assert_eq!(RoadType::Gravel.color(), [600, 580, 550, 1000]);
    assert_eq!(RoadType::Paved.color(), [350, 350, 380, 1000]);
}

#[test]
fn split_of_a_dangling_segment_may_meet_its_own_end() {
    let mut network = RoadNetwork::new();
    let a = network.add_node(p(0, 0, 0));
    // the second end names the node that is yet to come
    let s = network.add_segment(a, NodeId(1), Vec::new(), RoadType::Dirt, 2000);
    let mid = network.split_segment_at(s, p(5000, 0, 0));
    assert_eq!(mid, NodeId(1));
    assert!(network.segment(s).is_none());
    assert_eq!(network.segment(SegmentId(1)).unwrap().nodes, [a, mid]);
    assert_eq!(network.segment(SegmentId(2)).unwrap().nodes, [mid, mid]);
    // the new node is an end of the second segment twice over
    assert_eq!(ids(&network, 1), vec![1, 2, 2]);
    assert_eq!(ids(&network, 0), vec![1]);
}
