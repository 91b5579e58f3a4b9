use gilt_and_iron::building::{Candidate, Side};
use gilt_and_iron::economy::{
    best_site, building_defs, census, evaluate_and_spawn, is_producer_viable, nearest_building,
    BuildingCategory, BuildingDef, Census, EconomyDebug, Spawn, SpawnTimer, Town, Viability,
    LOGGING_CAMP, MIN_RICHNESS, WORKER_COTTAGE,
};
use gilt_and_iron::geometry::{Point2, Point3};
use gilt_and_iron::lot::{Lot, Rotation};
use gilt_and_iron::resources::{ResourceCell, ResourceMap, ResourceType};
use gilt_and_iron::road::{RoadNetwork, RoadType, SegmentId};
use gilt_and_iron::terrain::{Heightmap, TerrainConfig};

fn p(x: i32, y: i32, z: i32) -> Point3 {
    Point3 { x, y, z }
}

const EAST: Rotation = Rotation { cos: 1000, sin: 0 };
const WEST: Rotation = Rotation { cos: -1000, sin: 0 };

fn config() -> TerrainConfig {
    TerrainConfig { map_size: 500_000, resolution: 4, height_scale: 30_000, water_level: 10_000 }
}

fn level() -> Heightmap {
    Heightmap { heights: vec![15_000; 16], resolution: 4 }
}

fn timber(richness: i32) -> ResourceMap {
    ResourceMap {
        cells: vec![Some(ResourceCell { resource: ResourceType::Timber, richness })],
        resolution: 1,
    }
}

fn bare() -> ResourceMap {
    ResourceMap { cells: vec![None], resolution: 1 }
}

fn short_road() -> RoadNetwork {
    let mut network = RoadNetwork::new();
    network.commit_road(&[p(0, 15_000, 0), p(20_000, 15_000, 0)]);
    network
}

fn candidate(x: i32, z: i32, rotation: Rotation, side: Side) -> Candidate {
    Candidate {
        position: p(x, 15_000, z),
        lot_center: Point2 { x, y: z },
        rotation,
        segment_id: SegmentId(0),
        side,
    }
}

fn due() -> SpawnTimer {
    SpawnTimer { accumulator: 0, interval: 2000 }
}

#[test]
fn catalog_holds_the_camp_and_the_cottage() {
    let defs = building_defs();
    assert_eq!(defs.len(), 2);
    assert_eq!((LOGGING_CAMP, WORKER_COTTAGE), (0, 1));
    let camp = &defs[LOGGING_CAMP];
    assert_eq!(camp.label, "Logging Camp");
    assert_eq!(camp.category, BuildingCategory::Producer);
    assert_eq!(camp.lot_half_extents, Point2 { x: 6000, y: 5000 });
    assert_eq!(camp.workers_required, 5);
    assert_eq!(camp.workers_provided, 0);
    assert_eq!(camp.extracts_from, Some(ResourceType::Timber));
    assert_eq!(camp.extraction_radius, 60_000);
    let cottage = &defs[WORKER_COTTAGE];
    assert_eq!(cottage.label, "Worker Cottage");
    assert_eq!(cottage.category, BuildingCategory::Residential);
    assert_eq!(cottage.lot_half_extents, Point2 { x: 4000, y: 4000 });
    assert_eq!(cottage.workers_required, 0);
    assert_eq!(cottage.workers_provided, 2);
    assert_eq!(cottage.extracts_from, None);
    assert_eq!(cottage.extraction_radius, 0);
}

#[test]
fn viability_has_its_reasons() {
    assert_eq!(Viability::default(), Viability::Unknown);
    assert_eq!(Viability::Unknown.reason(), "");
    assert_eq!(Viability::Viable.reason(), "ok");
    assert_eq!(Viability::NoRoads.reason(), "no roads");
    assert_eq!(Viability::NoExtractionResource.reason(), "no extraction resource");
    assert_eq!(Viability::ExtractorNearby.reason(), "extractor nearby");
    assert_eq!(Viability::NoResourceOnRoad.reason(), "no resource on road");
    assert_eq!(Viability::WorkersSatisfied.reason(), "workers satisfied");
    assert!(Viability::Viable.is_viable());
    for v in [
        Viability::Unknown,
        Viability::NoRoads,
        Viability::NoExtractionResource,
        Viability::ExtractorNearby,
        Viability::NoResourceOnRoad,
        Viability::WorkersSatisfied,
    ] {
        assert!(!v.is_viable());
    }
}

#[test]
fn timer_gathers_time_until_the_interval() {
    let mut timer = SpawnTimer::default();
    assert_eq!(timer, SpawnTimer { accumulator: 0, interval: 2000 });
    assert!(!timer.tick(500));
    assert_eq!(timer.accumulator, 500);
    assert!(!timer.tick(1499));
    assert_eq!(timer.accumulator, 1999);
    assert!(timer.tick(1));
    assert_eq!(timer.accumulator, 0);
    assert!(!timer.tick(0));
    assert!(timer.tick(2500));
    assert_eq!(timer.accumulator, 500);
    assert!(timer.tick(5500));
    assert_eq!(timer.accumulator, 4000);
    assert!(timer.tick(0));
    assert_eq!(timer.accumulator, 2000);
    assert_eq!(timer.interval, 2000);
}

#[test]
fn timer_saturates() {
    let mut timer = SpawnTimer { accumulator: i64::MAX, interval: 2000 };
    assert!(timer.tick(i64::MAX));
    assert_eq!(timer.accumulator, i64::MAX - 2000);
    let mut timer = SpawnTimer { accumulator: i64::MIN, interval: 2000 };
    assert!(!timer.tick(i64::MIN));
    assert_eq!(timer.accumulator, i64::MIN);
    let mut timer = SpawnTimer { accumulator: i64::MAX, interval: -2000 };
    assert!(timer.tick(0));
    assert_eq!(timer.accumulator, i64::MAX);
    let mut timer = SpawnTimer { accumulator: 10, interval: 0 };
    assert!(!timer.tick(-20));
    assert_eq!(timer.accumulator, -10);
    assert!(timer.tick(15));
    assert_eq!(timer.accumulator, 5);
}

#[test]
fn producer_needs_something_to_extract() {
    let defs = building_defs();
    let idle = BuildingDef { extracts_from: None, ..defs[0] };
    let r = is_producer_viable(&idle, &short_road(), &timber(1000), &config(), &[], &defs);
    assert_eq!(r, Viability::NoExtractionResource);
    let r = is_producer_viable(&defs[1], &RoadNetwork::new(), &bare(), &config(), &[], &defs);
    assert_eq!(r, Viability::NoExtractionResource);
}

#[test]
fn producer_needs_a_road_over_its_resource() {
    let defs = building_defs();
    let camp = defs[0];
    let c = config();
    assert_eq!(
        is_producer_viable(&camp, &short_road(), &bare(), &c, &[], &defs),
        Viability::NoResourceOnRoad
    );
    assert_eq!(
        is_producer_viable(&camp, &RoadNetwork::new(), &timber(1000), &c, &[], &defs),
        Viability::NoResourceOnRoad
    );
    let coal = ResourceMap {
        cells: vec![Some(ResourceCell { resource: ResourceType::Coal, richness: 1000 })],
        resolution: 1,
    };
    assert_eq!(
        is_producer_viable(&camp, &short_road(), &coal, &c, &[], &defs),
        Viability::NoResourceOnRoad
    );
    assert_eq!(
        is_producer_viable(&camp, &short_road(), &timber(1000), &c, &[], &defs),
        Viability::Viable
    );
}

#[test]
fn deposit_must_be_richer_than_a_fifth() {
    let defs = building_defs();
    assert_eq!(MIN_RICHNESS, 200);
    assert_eq!(
        is_producer_viable(&defs[0], &short_road(), &timber(200), &config(), &[], &defs),
        Viability::NoResourceOnRoad
    );
    assert_eq!(
        is_producer_viable(&defs[0], &short_road(), &timber(201), &config(), &[], &defs),
        Viability::Viable
    );
}

#[test]
fn road_is_searched_along_its_curve() {
    let defs = building_defs();
    // only the south-east quarter of the map has timber
    let resources = ResourceMap {
        cells: vec![None, None, None, Some(ResourceCell { resource: ResourceType::Timber, richness: 900 })],
        resolution: 2,
    };
    // both ends lie outside it, the curve between them dips into it
    let mut curved = RoadNetwork::new();
    curved.commit_road(&[p(-40_000, 0, -10_000), p(20_000, 0, 30_000), p(40_000, 0, -10_000)]);
    assert_eq!(
        is_producer_viable(&defs[0], &curved, &resources, &config(), &[], &defs),
        Viability::Viable
    );
    let mut straight = RoadNetwork::new();
    straight.commit_road(&[p(-40_000, 0, -10_000), p(40_000, 0, -10_000)]);
    assert_eq!(
        is_producer_viable(&defs[0], &straight, &resources, &config(), &[], &defs),
        Viability::NoResourceOnRoad
    );
}

#[test]
fn extractor_claims_the_deposits_within_its_reach() {
    let defs = building_defs();
    let c = config();
    let road = short_road();
    // within sixty units of every sample of the road
    let near = [(p(10_000, 15_000, 0), 0)];
    assert_eq!(
        is_producer_viable(&defs[0], &road, &timber(500), &c, &near, &defs),
        Viability::ExtractorNearby
    );
    // sixty units from the road's far end, and nearer to the rest
    let edge = [(p(-40_000, 15_000, 0), 0)];
    assert_eq!(
        is_producer_viable(&defs[0], &road, &timber(500), &c, &edge, &defs),
        Viability::Viable
    );
    let inside = [(p(-39_999, 15_000, 0), 0)];
    assert_eq!(
        is_producer_viable(&defs[0], &road, &timber(500), &c, &inside, &defs),
        Viability::ExtractorNearby
    );
    // height counts
    let above = [(p(10_000, 75_000, 0), 0)];
    assert_eq!(
        is_producer_viable(&defs[0], &road, &timber(500), &c, &above, &defs),
        Viability::Viable
    );
    // a home claims nothing
    let home = [(p(10_000, 15_000, 0), 1)];
    assert_eq!(
        is_producer_viable(&defs[0], &road, &timber(500), &c, &home, &defs),
        Viability::Viable
    );
}

#[test]
fn extractor_without_reach_claims_nothing() {
    let defs = building_defs();
    let near = [(p(10_000, 15_000, 0), 0)];
    let reachless = BuildingDef { extraction_radius: 0, ..defs[0] };
    assert_eq!(
        is_producer_viable(&reachless, &short_road(), &timber(500), &config(), &near, &defs),
        Viability::Viable
    );
    let negative = BuildingDef { extraction_radius: -60_000, ..defs[0] };
    assert_eq!(
        is_producer_viable(&negative, &short_road(), &timber(500), &config(), &near, &defs),
        Viability::Viable
    );
}

#[test]
fn nothing_is_decided_before_the_timer_is_due() {
    let network = short_road();
    let (heights, c, resources, defs) = (level(), config(), timber(500), building_defs());
    let town = Town {
        road_network: &network,
        heightmap: &heights,
        config: &c,
        resource_map: &resources,
        lots: &[],
        buildings: &[],
        defs: &defs,
    };
    let mut timer = due();
    let mut debug = EconomyDebug::default();
    debug.producer_candidates = 9;
    assert_eq!(evaluate_and_spawn(1999, &mut timer, &town, &mut debug), None);
    assert_eq!(timer.accumulator, 1999);
    assert_eq!(debug, EconomyDebug { producer_candidates: 9, ..EconomyDebug::default() });
}

#[test]
fn nothing_is_built_without_roads() {
    let network = RoadNetwork::new();
    let (heights, c, resources, defs) = (level(), config(), timber(500), building_defs());
    let buildings = [(p(0, 0, 0), 0)];
    let town = Town {
        road_network: &network,
        heightmap: &heights,
        config: &c,
        resource_map: &resources,
        lots: &[],
        buildings: &buildings,
        defs: &defs,
    };
    let mut timer = due();
    let mut debug = EconomyDebug {
        workers_needed: 3,
        workers_provided: 4,
        producer: Viability::Viable,
        producer_candidates: 5,
        residential: Viability::Viable,
        residential_candidates: 6,
        last_spawn: Some(Spawn { def_index: 0, candidate: candidate(0, 0, EAST, Side::Right), score: 1 }),
        best_score: Some(1),
    };
    assert_eq!(evaluate_and_spawn(2000, &mut timer, &town, &mut debug), None);
    assert_eq!(
        debug,
        EconomyDebug {
            workers_needed: 3,
            workers_provided: 4,
            producer: Viability::NoRoads,
            producer_candidates: 0,
            residential: Viability::NoRoads,
            residential_candidates: 0,
            last_spawn: None,
            best_score: None,
        }
    );
}

#[test]
fn producer_is_built_first_at_the_best_site() {
    let network = short_road();
    let (heights, c, resources, defs) = (level(), config(), timber(500), building_defs());
    let town = Town {
        road_network: &network,
        heightmap: &heights,
        config: &c,
        resource_map: &resources,
        lots: &[],
        buildings: &[],
        defs: &defs,
    };
    let mut timer = due();
    let mut debug = EconomyDebug::default();
    let spawn = evaluate_and_spawn(2000, &mut timer, &town, &mut debug);
    let expected = Spawn { def_index: 0, candidate: candidate(0, -8500, WEST, Side::Left), score: 6000 };
    assert_eq!(spawn, Some(expected));
    assert_eq!(timer.accumulator, 0);
    assert_eq!(
        debug,
        EconomyDebug {
            workers_needed: 0,
            workers_provided: 0,
            producer: Viability::Viable,
            producer_candidates: 4,
            residential: Viability::Unknown,
            residential_candidates: 0,
            last_spawn: Some(expected),
            best_score: Some(6000),
        }
    );
}

#[test]
fn home_is_built_while_workers_are_needed() {
    let network = short_road();
    let (heights, c, resources, defs) = (level(), config(), timber(500), building_defs());
    let lots = [Lot {
        center: Point2 { x: 0, y: -8500 },
        rotation: WEST,
        half_extents: Point2 { x: 6000, y: 5000 },
        building: 1,
    }];
    let buildings = [(p(0, 15_000, -8500), 0)];
    let town = Town {
        road_network: &network,
        heightmap: &heights,
        config: &c,
        resource_map: &resources,
        lots: &lots,
        buildings: &buildings,
        defs: &defs,
    };
    let mut timer = due();
    let mut debug = EconomyDebug::default();
    let spawn = evaluate_and_spawn(2000, &mut timer, &town, &mut debug);
    let expected = Spawn { def_index: 1, candidate: candidate(0, 7500, EAST, Side::Right), score: 4000 };
    assert_eq!(spawn, Some(expected));
    assert_eq!(
        debug,
        EconomyDebug {
            workers_needed: 5,
            workers_provided: 0,
            producer: Viability::ExtractorNearby,
            producer_candidates: 0,
            residential: Viability::Viable,
            residential_candidates: 3,
            last_spawn: Some(expected),
            best_score: Some(4000),
        }
    );
}

#[test]
fn home_prefers_company() {
    let network = short_road();
    let (heights, c, resources, defs) = (level(), config(), timber(500), building_defs());
    let lots = [
        Lot {
            center: Point2 { x: 0, y: -8500 },
            rotation: WEST,
            half_extents: Point2 { x: 6000, y: 5000 },
            building: 1,
        },
        Lot {
            center: Point2 { x: 0, y: 7500 },
            rotation: EAST,
            half_extents: Point2 { x: 4000, y: 4000 },
            building: 2,
        },
    ];
    let buildings = [(p(0, 15_000, -8500), 0), (p(0, 15_000, 7500), 1)];
    let town = Town {
        road_network: &network,
        heightmap: &heights,
        config: &c,
        resource_map: &resources,
        lots: &lots,
        buildings: &buildings,
        defs: &defs,
    };
    let mut timer = due();
    let mut debug = EconomyDebug::default();
    let spawn = evaluate_and_spawn(2000, &mut timer, &town, &mut debug);
    let expected =
        Spawn { def_index: 1, candidate: candidate(10_000, 7500, EAST, Side::Right), score: 4500 };
    assert_eq!(spawn, Some(expected));
    assert_eq!(debug.workers_needed, 5);
    assert_eq!(debug.workers_provided, 2);
    assert_eq!(debug.residential_candidates, 2);
}

#[test]
fn no_home_is_built_once_the_workers_are_housed() {
    let network = short_road();
    let (heights, c, resources, defs) = (level(), config(), timber(500), building_defs());
    let buildings = [
        (p(0, 15_000, -8500), 0),
        (p(900_000, 0, 0), 1),
        (p(900_000, 0, 0), 1),
        (p(900_000, 0, 0), 1),
    ];
    let town = Town {
        road_network: &network,
        heightmap: &heights,
        config: &c,
        resource_map: &resources,
        lots: &[],
        buildings: &buildings,
        defs: &defs,
    };
    let mut timer = due();
    let mut debug = EconomyDebug::default();
    assert_eq!(evaluate_and_spawn(2000, &mut timer, &town, &mut debug), None);
    assert_eq!(
        debug,
        EconomyDebug {
            workers_needed: 5,
            workers_provided: 6,
            producer: Viability::ExtractorNearby,
            producer_candidates: 0,
            residential: Viability::WorkersSatisfied,
            residential_candidates: 0,
            last_spawn: None,
            best_score: None,
        }
    );
}

#[test]
fn viable_kind_without_a_site_is_passed_over() {
    // the road is too wide for any lot
    let mut network = RoadNetwork::new();
    let a = network.add_node(p(0, 15_000, 0));
    let b = network.add_node(p(20_000, 15_000, 0));
    network.add_segment(a, b, Vec::new(), RoadType::Paved, 20_000);
    let (heights, c, resources, defs) = (level(), config(), timber(500), building_defs());
    let buildings = [(p(900_000, 0, 900_000), 0)];
    let town = Town {
        road_network: &network,
        heightmap: &heights,
        config: &c,
        resource_map: &resources,
        lots: &[],
        buildings: &buildings,
        defs: &defs,
    };
    let mut timer = due();
    let mut debug = EconomyDebug::default();
    assert_eq!(evaluate_and_spawn(2000, &mut timer, &town, &mut debug), None);
    assert_eq!(
        debug,
        EconomyDebug {
            workers_needed: 5,
            workers_provided: 0,
            producer: Viability::Viable,
            producer_candidates: 0,
            residential: Viability::Viable,
            residential_candidates: 0,
            last_spawn: None,
            best_score: None,
        }
    );
}

#[test]
fn census_counts_by_category() {
    let defs = building_defs();
    assert_eq!(
        census(&[], &defs),
        Census { producers: 0, residential: 0, workers_needed: 0, workers_provided: 0 }
    );
    let buildings = [(p(0, 0, 0), 0), (p(1, 0, 0), 1), (p(2, 0, 0), 1), (p(3, 0, 0), 0), (p(4, 0, 0), 1)];
    assert_eq!(
        census(&buildings, &defs),
        Census { producers: 2, residential: 3, workers_needed: 10, workers_provided: 6 }
    );
}

#[test]
fn census_counts_what_each_category_is_for() {
    // a producer that houses workers and a home that needs them
    let defs = [
        BuildingDef { workers_provided: 7, ..building_defs()[0] },
        BuildingDef { workers_required: 9, ..building_defs()[1] },
    ];
    let buildings = [(p(0, 0, 0), 0), (p(1, 0, 0), 1)];
    assert_eq!(
        census(&buildings, &defs),
        Census { producers: 1, residential: 1, workers_needed: 5, workers_provided: 2 }
    );
}

#[test]
fn census_counts_stay_within_32_bits() {
    let defs = [
        BuildingDef { workers_required: u32::MAX, ..building_defs()[0] },
        building_defs()[1],
    ];
    let buildings = [(p(0, 0, 0), 0), (p(1, 0, 0), 0)];
    let c = census(&buildings, &defs);
    assert_eq!(c.producers, 2);
    assert_eq!(c.workers_needed, u32::MAX);
}

#[test]
fn workers_needed_by_any_building_count_for_the_decision() {
    // in the decision, unlike the census, every building's needs count
    let network = short_road();
    let (heights, c, resources) = (level(), config(), bare());
    let defs = [building_defs()[0], BuildingDef { workers_required: 3, ..building_defs()[1] }];
    let buildings = [(p(900_000, 0, 0), 1)];
    let town = Town {
        road_network: &network,
        heightmap: &heights,
        config: &c,
        resource_map: &resources,
        lots: &[],
        buildings: &buildings,
        defs: &defs,
    };
    let mut timer = due();
    let mut debug = EconomyDebug::default();
    let spawn = evaluate_and_spawn(2000, &mut timer, &town, &mut debug);
    assert_eq!(debug.workers_needed, 3);
    assert_eq!(debug.workers_provided, 2);
    assert_eq!(debug.producer, Viability::NoResourceOnRoad);
    assert_eq!(debug.residential, Viability::Viable);
    assert_eq!(spawn.map(|s| s.def_index), Some(1));
}

#[test]
fn nearest_building_is_strictly_within_reach() {
    let buildings = [(p(9000, 0, 0), 0), (p(0, 0, 5000), 1), (p(0, 5000, 0), 0), (p(10_000, 0, 0), 1)];
    assert_eq!(nearest_building(&buildings, p(0, 0, 0), 10_000), Some(1));
    assert_eq!(nearest_building(&buildings, p(0, 0, 0), 5001), Some(1));
    assert_eq!(nearest_building(&buildings, p(0, 0, 0), 5000), None);
    assert_eq!(nearest_building(&buildings, p(10_000, 0, 0), 10_000), Some(3));
    assert_eq!(nearest_building(&buildings, p(9500, 0, 0), 10_000), Some(0));
    assert_eq!(nearest_building(&buildings, p(0, 0, 0), 0), None);
    assert_eq!(nearest_building(&buildings, p(0, 0, 0), -10_000), None);
    assert_eq!(nearest_building(&[], p(0, 0, 0), 10_000), None);
}

#[test]
fn best_site_is_the_first_of_the_highest_scoring() {
    let network = short_road();
    let (heights, c, defs) = (level(), config(), building_defs());
    let resources = timber(700);
    let town = Town {
        road_network: &network,
        heightmap: &heights,
        config: &c,
        resource_map: &resources,
        lots: &[],
        buildings: &[],
        defs: &defs,
    };
    assert_eq!(
        best_site(&town, 0),
        Some(Spawn { def_index: 0, candidate: candidate(0, -8500, WEST, Side::Left), score: 7600 })
    );
    assert_eq!(
        best_site(&town, 1),
        Some(Spawn { def_index: 1, candidate: candidate(0, -7500, WEST, Side::Left), score: 2000 })
    );
    // three homes: within twenty units of the first lot there are all three,
    // of each of the others only two
    let homes = [(p(0, 15_000, -8500), 1), (p(15_937, 15_000, -8500), 1), (p(0, 15_000, 8500), 1)];
    let crowded = Town { buildings: &homes, ..town };
    assert_eq!(
        best_site(&crowded, 0),
        Some(Spawn { def_index: 0, candidate: candidate(0, 8500, EAST, Side::Right), score: 3600 })
    );
}

#[test]
fn no_roads_no_best_site() {
    let network = RoadNetwork::new();
    let (heights, c, resources, defs) = (level(), config(), timber(500), building_defs());
    let town = Town {
        road_network: &network,
        heightmap: &heights,
        config: &c,
        resource_map: &resources,
        lots: &[],
        buildings: &[],
        defs: &defs,
    };
    assert_eq!(best_site(&town, 0), None);
    assert_eq!(best_site(&town, 1), None);
}
