use gilt_and_iron::geometry::Point3;
use gilt_and_iron::resolver::{
    lerp_point, segment_intersection_xz, sort_hits, Crossing, Hit, SNAP_RADIUS,
};
use gilt_and_iron::road::{NodeId, RoadNetwork, RoadType, SegmentId};

fn p(x: i32, y: i32, z: i32) -> Point3 {
    Point3 { x, y, z }
}

fn ends(network: &RoadNetwork, id: u32) -> (u32, u32) {
    let s = network.segment(SegmentId(id)).unwrap();
    (s.nodes[0].0, s.nodes[1].0)
}

fn list(network: &RoadNetwork, node: u32) -> Vec<u32> {
    network.node(NodeId(node)).unwrap().segments.iter().map(|s| s.0).collect()
}

fn no_segment_dangles(network: &RoadNetwork) -> bool {
    network.segment_ids().iter().all(|id| {
        let s = network.segment(*id).unwrap();
        s.nodes.iter().all(|n| match network.node(*n) {
            Some(node) => node.segments.contains(id),
            None => false,
        })
    })
}

#[test]
fn snap_radius_is_three_world_units() {
    assert_eq!(SNAP_RADIUS, 3000);
}

#[test]
fn perpendicular_segments_cross_at_their_middles() {
    let r = segment_intersection_xz(p(-10000, 0, 0), p(10000, 0, 0), p(0, 0, -10000), p(0, 0, 10000));
    assert_eq!(r, Some(Crossing { t_num: 200_000_000, u_num: 200_000_000, denom: 400_000_000 }));
}

#[test]
fn crossing_fractions_are_along_each_segment() {
    // the first segment is met a quarter along, the second three quarters along
    let r = segment_intersection_xz(p(0, 0, 0), p(40000, 0, 0), p(10000, 0, 30000), p(10000, 0, -10000));
    let c = r.unwrap();
    assert!(c.denom > 0);
    assert_eq!(c.t_num * 4, c.denom);
    assert_eq!(c.u_num * 4, c.denom * 3);
}

#[test]
fn parallel_and_collinear_segments_do_not_cross() {
    assert_eq!(
        segment_intersection_xz(p(0, 0, 0), p(10000, 0, 0), p(0, 0, 1000), p(10000, 0, 1000)),
        None
    );
    assert_eq!(
        segment_intersection_xz(p(0, 0, 0), p(10000, 0, 0), p(5000, 0, 0), p(15000, 0, 0)),
        None
    );
    assert_eq!(segment_intersection_xz(p(0, 0, 0), p(0, 0, 0), p(5000, 0, 0), p(15000, 0, 0)), None);
}

#[test]
fn segments_that_miss_each_other_do_not_cross() {
    assert_eq!(
        segment_intersection_xz(p(0, 0, 0), p(10000, 0, 0), p(20000, 0, -5000), p(20000, 0, 5000)),
        None
    );
    assert_eq!(
        segment_intersection_xz(p(0, 0, 0), p(10000, 0, 0), p(5000, 0, 1000), p(5000, 0, 5000)),
        None
    );
}

#[test]
fn crossing_within_a_hundredth_of_an_end_does_not_count() {
    let a1 = p(0, 0, 0);
    let a2 = p(100_000, 0, 0);
    // exactly a hundredth along the first segment
    assert_eq!(segment_intersection_xz(a1, a2, p(1000, 0, -5000), p(1000, 0, 5000)), None);
    assert!(segment_intersection_xz(a1, a2, p(1001, 0, -5000), p(1001, 0, 5000)).is_some());
    // exactly ninety-nine hundredths along
    assert_eq!(segment_intersection_xz(a1, a2, p(99_000, 0, -5000), p(99_000, 0, 5000)), None);
    assert!(segment_intersection_xz(a1, a2, p(98_999, 0, -5000), p(98_999, 0, 5000)).is_some());
    // a hundredth along the second segment
    assert_eq!(segment_intersection_xz(a1, a2, p(50_000, 0, -1000), p(50_000, 0, 99_000)), None);
    assert!(segment_intersection_xz(a1, a2, p(50_000, 0, -1001), p(50_000, 0, 98_999)).is_some());
    // at a shared end
    assert_eq!(segment_intersection_xz(a1, a2, p(0, 0, 0), p(0, 0, 50_000)), None);
}

#[test]
fn crossing_ignores_elevation() {
    let flat = segment_intersection_xz(p(-10000, 0, 0), p(10000, 0, 0), p(0, 0, -10000), p(0, 0, 10000));
    let high = segment_intersection_xz(
        p(-10000, 900, 0),
        p(10000, -70, 0),
        p(0, 5000, -10000),
        p(0, 1, 10000),
    );
    assert_eq!(flat, high);
}

#[test]
fn crossing_does_not_depend_on_the_direction_of_the_second_segment() {
    let one = segment_intersection_xz(p(0, 0, 0), p(40000, 0, 0), p(10000, 0, 30000), p(10000, 0, -10000));
    let other = segment_intersection_xz(p(0, 0, 0), p(40000, 0, 0), p(10000, 0, -10000), p(10000, 0, 30000));
    let (a, b) = (one.unwrap(), other.unwrap());
    assert_eq!(a.t_num * b.denom, b.t_num * a.denom);
    assert_eq!(a.u_num * b.denom, (b.denom - b.u_num) * a.denom);
}

#[test]
fn crossing_of_the_longest_segments_fits() {
    let lo = i32::MIN;
    let hi = i32::MAX;
    let r = segment_intersection_xz(p(lo, 0, lo), p(hi, 0, hi), p(lo, 0, hi), p(hi, 0, lo));
    let c = r.unwrap();
    assert_eq!(c.t_num * 2, c.denom);
    assert_eq!(c.u_num * 2, c.denom);
    let d = (1i128 << 32) - 1;
    assert_eq!(c.denom, 2 * d * d);
}

#[test]
fn lerp_rounds_each_coordinate_down() {
    assert_eq!(lerp_point(p(0, 0, 0), p(10, -10, 3), 1, 3), p(3, -4, 1));
    assert_eq!(lerp_point(p(5, 5, 5), p(5, 6, 4), 1, 2), p(5, 5, 4));
    assert_eq!(lerp_point(p(-100, 0, 100), p(100, 0, -100), 1, 2), p(0, 0, 0));
    assert_eq!(lerp_point(p(1, 2, 3), p(7, 8, 9), 0, 5), p(1, 2, 3));
    assert_eq!(lerp_point(p(1, 2, 3), p(7, 8, 9), 5, 5), p(7, 8, 9));
}

#[test]
fn sort_orders_hits_by_distance_and_keeps_ties_in_order() {
    let origin = p(0, 0, 0);
    let hits = vec![
        Hit { segment: SegmentId(0), point: p(3000, 0, 0) },
        Hit { segment: SegmentId(1), point: p(0, 0, 1000) },
        Hit { segment: SegmentId(2), point: p(0, 3000, 0) },
        Hit { segment: SegmentId(3), point: p(-2000, 0, 0) },
        Hit { segment: SegmentId(4), point: p(0, 0, -3000) },
    ];
    let order: Vec<u32> = sort_hits(&hits, origin).iter().map(|h| h.segment.0).collect();
    assert_eq!(order, vec![1, 3, 0, 2, 4]);
    assert!(sort_hits(&Vec::new(), origin).is_empty());
}

#[test]
fn road_that_crosses_nothing_is_one_segment_with_its_waypoints() {
    let mut network = RoadNetwork::new();
    let chain = network.commit_road(&[p(0, 0, 0), p(5000, 1, 2000), p(9000, 2, 2500), p(20000, 3, 0)]);
    assert_eq!(chain, vec![NodeId(0), NodeId(1)]);
    assert_eq!(network.nodes().len(), 2);
    assert_eq!(network.segment_count(), 1);
    let s = network.segment(SegmentId(0)).unwrap();
    assert_eq!(s.nodes, [NodeId(0), NodeId(1)]);
    assert_eq!(s.control_points, vec![p(5000, 1, 2000), p(9000, 2, 2500)]);
    assert_eq!(s.road_type, RoadType::Dirt);
    assert_eq!(s.width, 2000);
    assert_eq!(network.node(NodeId(0)).unwrap().position, p(0, 0, 0));
    assert_eq!(network.node(NodeId(1)).unwrap().position, p(20000, 3, 0));
    assert!(no_segment_dangles(&network));
}

#[test]
fn road_of_two_points_has_no_control_points() {
    let mut network = RoadNetwork::new();
    network.commit_road(&[p(0, 0, 0), p(20000, 0, 0)]);
    assert!(network.segment(SegmentId(0)).unwrap().control_points.is_empty());
}

#[test]
fn road_ends_snap_to_nodes_within_three_units() {
    let mut network = RoadNetwork::new();
    network.commit_road(&[p(0, 0, 0), p(20000, 0, 0)]);
    let chain = network.commit_road(&[p(20000, 0, 2999), p(20000, 0, 30000)]);
    assert_eq!(chain, vec![NodeId(1), NodeId(2)]);
    assert_eq!(network.nodes().len(), 3);
    assert_eq!(ends(&network, 1), (1, 2));
    assert_eq!(list(&network, 1), vec![0, 1]);
}

#[test]
fn road_end_exactly_three_units_from_a_node_does_not_snap() {
    let mut network = RoadNetwork::new();
    network.commit_road(&[p(0, 0, 0), p(20000, 0, 0)]);
    let chain = network.commit_road(&[p(20000, 0, 3000), p(20000, 0, 30000)]);
    assert_eq!(chain, vec![NodeId(2), NodeId(3)]);
    assert_eq!(network.nodes().len(), 4);
    assert_eq!(network.node(NodeId(2)).unwrap().position, p(20000, 0, 3000));
}

#[test]
fn road_whose_ends_snap_to_one_node_is_a_loop() {
    let mut network = RoadNetwork::new();
    let chain = network.commit_road(&[p(0, 0, 0), p(1000, 0, 0)]);
    assert_eq!(chain, vec![NodeId(0), NodeId(0)]);
    assert_eq!(network.nodes().len(), 1);
    assert_eq!(ends(&network, 0), (0, 0));
    assert_eq!(list(&network, 0), vec![0, 0]);
}

#[test]
fn crossing_one_segment_at_its_midpoint() {
    let mut network = RoadNetwork::new();
    network.commit_road(&[p(-50000, 0, 0), p(50000, 0, 0)]);
    assert_eq!(network.segment_count(), 1);
    assert_eq!(network.nodes().len(), 2);
    let chain = network.commit_road(&[p(0, 0, -50000), p(0, 0, 50000)]);
    // one new node besides the road's own ends
    assert_eq!(chain, vec![NodeId(2), NodeId(4), NodeId(3)]);
    assert_eq!(network.nodes().len(), 5);
    assert_eq!(network.node(NodeId(4)).unwrap().position, p(0, 0, 0));
    // the crossed segment is replaced by two, and the road is two more
    assert!(network.segment(SegmentId(0)).is_none());
    assert_eq!(
        network.segment_ids(),
        vec![SegmentId(1), SegmentId(2), SegmentId(3), SegmentId(4)]
    );
    assert_eq!(network.segment_count(), 4);
    assert!(no_segment_dangles(&network));
}

#[test]
fn two_roads_in_a_plus() {
    let mut network = RoadNetwork::new();
    network.commit_road(&[p(-50000, 0, 0), p(50000, 0, 0)]);
    network.commit_road(&[p(0, 0, -50000), p(0, 0, 50000)]);
    assert_eq!(network.segment_count(), 4);
    assert_eq!(ends(&network, 1), (0, 4));
    assert_eq!(ends(&network, 2), (4, 1));
    assert_eq!(ends(&network, 3), (2, 4));
    assert_eq!(ends(&network, 4), (4, 3));
    assert_eq!(list(&network, 4), vec![1, 2, 3, 4]);
    assert_eq!(list(&network, 0), vec![1]);
    assert_eq!(list(&network, 1), vec![2]);
    assert_eq!(list(&network, 2), vec![3]);
    assert_eq!(list(&network, 3), vec![4]);
    // exactly one node where the roads meet
    let junctions = network.nodes().values().filter(|n| n.segments.len() > 1).count();
    assert_eq!(junctions, 1);
}

#[test]
fn crossing_drops_the_waypoints() {
    let mut network = RoadNetwork::new();
    network.commit_road(&[p(-50000, 0, 0), p(50000, 0, 0)]);
    network.commit_road(&[p(0, 0, -50000), p(7000, 0, -20000), p(0, 0, 50000)]);
    for id in network.segment_ids() {
        assert!(network.segment(id).unwrap().control_points.is_empty());
    }
    assert_eq!(network.segment_count(), 4);
}

#[test]
fn crossings_are_split_in_order_of_distance_from_the_start() {
    let mut network = RoadNetwork::new();
    // segment 0 lies far from the new road's start, segment 1 near it
    network.commit_road(&[p(30000, 0, -20000), p(30000, 0, 20000)]);
    network.commit_road(&[p(10000, 0, -20000), p(10000, 0, 20000)]);
    let chain = network.commit_road(&[p(0, 0, 0), p(40000, 0, 0)]);
    assert_eq!(chain, vec![NodeId(4), NodeId(6), NodeId(7), NodeId(5)]);
    assert_eq!(network.node(NodeId(6)).unwrap().position, p(10000, 0, 0));
    assert_eq!(network.node(NodeId(7)).unwrap().position, p(30000, 0, 0));
    // segment 1 was split first
    assert_eq!(ends(&network, 2), (2, 6));
    assert_eq!(ends(&network, 3), (6, 3));
    assert_eq!(ends(&network, 4), (0, 7));
    assert_eq!(ends(&network, 5), (7, 1));
    // then the road was laid through both crossings
    assert_eq!(ends(&network, 6), (4, 6));
    assert_eq!(ends(&network, 7), (6, 7));
    assert_eq!(ends(&network, 8), (7, 5));
    assert_eq!(network.segment_count(), 7);
    assert_eq!(network.nodes().len(), 8);
    assert!(no_segment_dangles(&network));
}

#[test]
fn road_gains_two_segments_and_a_node_for_each_crossing() {
    let mut network = RoadNetwork::new();
    for i in 0..5 {
        let x = 10000 * (i + 1);
        network.commit_road(&[p(x, 0, -20000), p(x, 0, 20000)]);
    }
    let segments = network.segment_count();
    let nodes = network.nodes().len();
    let chain = network.commit_road(&[p(0, 0, 0), p(35000, 0, 0)]);
    assert_eq!(chain.len(), 5);
    assert_eq!(network.segment_count(), segments + 2 * 3 + 1);
    assert_eq!(network.nodes().len(), nodes + 2 + 3);
    assert!(no_segment_dangles(&network));
}

#[test]
fn crossing_is_tested_against_the_straight_line_between_the_ends() {
    let mut network = RoadNetwork::new();
    // the curve bulges across x = 5000, the line between its ends does not
    network.commit_road(&[p(0, 0, -20000), p(9000, 0, 0), p(0, 0, 20000)]);
    let chain = network.commit_road(&[p(5000, 0, -30000), p(5000, 0, 30000)]);
    assert_eq!(chain.len(), 2);
    assert_eq!(network.segment_count(), 2);
}

#[test]
fn segment_with_a_missing_end_is_not_crossed() {
    let mut network = RoadNetwork::new();
    let a = network.add_node(p(-50000, 0, 0));
    network.add_segment(a, NodeId(77), Vec::new(), RoadType::Dirt, 2000);
    let chain = network.commit_road(&[p(0, 0, -50000), p(0, 0, 50000)]);
    assert_eq!(chain.len(), 2);
    assert_eq!(network.segment_count(), 2);
}

#[test]
fn hits_come_by_ascending_segment_id() {
    let mut network = RoadNetwork::new();
    network.commit_road(&[p(30000, 0, -20000), p(30000, 0, 20000)]);
    network.commit_road(&[p(10000, 0, -20000), p(10000, 0, 20000)]);
    let hits = network.find_hits(p(0, 5, 0), p(40000, 45, 0));
    assert_eq!(
        hits,
        vec![
            Hit { segment: SegmentId(0), point: p(30000, 35, 0) },
            Hit { segment: SegmentId(1), point: p(10000, 15, 0) },
        ]
    );
}
