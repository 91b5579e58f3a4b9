use gilt_and_iron::resources::{
    classify_resource, generate_resource_map, near_water, CellSurvey, ResourceCell, ResourceMap,
    ResourceNoise, ResourceType, WATER_REACH,
};
use gilt_and_iron::terrain::{generate_biome_map, Biome, Heightmap, TerrainConfig};

fn config() -> TerrainConfig {
    TerrainConfig { map_size: 40_000, resolution: 4, height_scale: 30_000, water_level: 10_000 }
}

fn quiet() -> ResourceNoise {
    ResourceNoise { timber: 0, coal: 0, clay: 0, stone: 0, fertility: -1000 }
}

fn survey(height: i32, biome: Biome, flatness: i32, near_water: bool, noise: ResourceNoise) -> CellSurvey {
    CellSurvey { height, biome, flatness, near_water, noise }
}

fn cell(resource: ResourceType, richness: i32) -> Option<ResourceCell> {
    Some(ResourceCell { resource, richness })
}

#[test]
fn resources_have_names() {
    assert_eq!(ResourceType::Timber.label(), "Timber");
    assert_eq!(ResourceType::FertileLand.label(), "Fertile Land");
    assert_eq!(ResourceType::Coal.label(), "Coal");
    assert_eq!(ResourceType::Clay.label(), "Clay");
    assert_eq!(ResourceType::Stone.label(), "Stone");
}

#[test]
fn resource_cells_are_read_like_heights() {
    let map = ResourceMap {
        cells: vec![None, cell(ResourceType::Coal, 10), cell(ResourceType::Clay, 20), None],
        resolution: 2,
    };
    assert_eq!(map.get(0, 0), None);
    assert_eq!(map.get(0, 1), cell(ResourceType::Coal, 10));
    assert_eq!(map.get(1, 0), cell(ResourceType::Clay, 20));
    assert_eq!(map.get(0, 7), cell(ResourceType::Coal, 10));
    assert_eq!(map.get(7, 0), cell(ResourceType::Clay, 20));
    assert_eq!(map.sample_world(5000, -5000, 20_000), cell(ResourceType::Coal, 10));
    assert_eq!(map.sample_world(-5000, 5000, 20_000), cell(ResourceType::Clay, 20));
    assert_eq!(map.sample_world(-5000, -5000, 20_000), None);
    assert_eq!(map.sample_world(i32::MIN, i32::MAX, 20_000), cell(ResourceType::Clay, 20));
}

#[test]
fn nothing_lies_under_water() {
    let noise = ResourceNoise { timber: 1000, coal: 1000, clay: 1000, stone: 1000, fertility: 1000 };
    assert_eq!(classify_resource(&survey(9_999, Biome::Rock, 1000, true, noise), &config()), None);
}

#[test]
fn coal_lies_in_high_dirt_and_rock() {
    let noise = ResourceNoise { coal: 750, ..quiet() };
    let c = config();
    assert_eq!(
        classify_resource(&survey(12_001, Biome::Dirt, 1000, false, noise), &c),
        cell(ResourceType::Coal, 500)
    );
    assert_eq!(
        classify_resource(&survey(20_000, Biome::Rock, 0, false, noise), &c),
        cell(ResourceType::Coal, 500)
    );
    assert_eq!(classify_resource(&survey(12_000, Biome::Dirt, 1000, false, noise), &c), None);
    assert_eq!(classify_resource(&survey(20_000, Biome::Grass, 1000, false, noise), &c), None);
    let faint = ResourceNoise { coal: 500, ..quiet() };
    assert_eq!(classify_resource(&survey(20_000, Biome::Dirt, 1000, false, faint), &c), None);
    let trace = ResourceNoise { coal: 501, ..quiet() };
    assert_eq!(
        classify_resource(&survey(20_000, Biome::Dirt, 1000, false, trace), &c),
        cell(ResourceType::Coal, 2)
    );
    let seam = ResourceNoise { coal: 1200, ..quiet() };
    assert_eq!(
        classify_resource(&survey(20_000, Biome::Dirt, 1000, false, seam), &c),
        cell(ResourceType::Coal, 1000)
    );
}

#[test]
fn clay_lies_just_above_nearby_water() {
    let noise = ResourceNoise { clay: 650, ..quiet() };
    let c = config();
    assert_eq!(
        classify_resource(&survey(10_001, Biome::Sand, 1000, true, noise), &c),
        cell(ResourceType::Clay, 500)
    );
    assert_eq!(
        classify_resource(&survey(13_999, Biome::Grass, 1000, true, noise), &c),
        cell(ResourceType::Clay, 500)
    );
    assert_eq!(classify_resource(&survey(10_000, Biome::Sand, 1000, true, noise), &c), None);
    assert_eq!(classify_resource(&survey(14_000, Biome::Sand, 1000, true, noise), &c), None);
    assert_eq!(classify_resource(&survey(12_000, Biome::Sand, 1000, false, noise), &c), None);
    let thin = ResourceNoise { clay: 300, ..quiet() };
    assert_eq!(classify_resource(&survey(12_000, Biome::Sand, 1000, true, thin), &c), None);
    let some = ResourceNoise { clay: 301, ..quiet() };
    assert_eq!(
        classify_resource(&survey(12_000, Biome::Sand, 1000, true, some), &c),
        cell(ResourceType::Clay, 1)
    );
}

#[test]
fn stone_lies_in_rock() {
    let noise = ResourceNoise { stone: 1000, ..quiet() };
    let c = config();
    assert_eq!(
        classify_resource(&survey(11_000, Biome::Rock, 0, false, noise), &c),
        cell(ResourceType::Stone, 1000)
    );
    assert_eq!(classify_resource(&survey(11_000, Biome::Dirt, 0, false, noise), &c), None);
    let some = ResourceNoise { stone: 370, ..quiet() };
    assert_eq!(
        classify_resource(&survey(11_000, Biome::Rock, 0, false, some), &c),
        cell(ResourceType::Stone, 100)
    );
}

#[test]
fn fertile_land_lies_on_level_ground_by_the_water() {
    let c = config();
    let rich = ResourceNoise { fertility: 400, ..quiet() };
    assert_eq!(
        classify_resource(&survey(15_999, Biome::Grass, 961, true, rich), &c),
        cell(ResourceType::FertileLand, 500)
    );
    assert_eq!(classify_resource(&survey(15_999, Biome::Grass, 960, true, rich), &c), None);
    assert_eq!(classify_resource(&survey(16_000, Biome::Grass, 961, true, rich), &c), None);
    assert_eq!(classify_resource(&survey(15_999, Biome::Grass, 961, false, rich), &c), None);
    // even poor fertile land is three tenths rich
    let poor = ResourceNoise { fertility: -199, ..quiet() };
    assert_eq!(
        classify_resource(&survey(15_000, Biome::Grass, 1000, true, poor), &c),
        cell(ResourceType::FertileLand, 300)
    );
    let barren = ResourceNoise { fertility: -200, ..quiet() };
    assert_eq!(classify_resource(&survey(15_000, Biome::Grass, 1000, true, barren), &c), None);
    let best = ResourceNoise { fertility: 1000, ..quiet() };
    assert_eq!(
        classify_resource(&survey(15_000, Biome::Grass, 1000, true, best), &c),
        cell(ResourceType::FertileLand, 1000)
    );
}

#[test]
fn timber_grows_on_gentle_grass_and_dirt_above_the_water() {
    let c = config();
    let noise = ResourceNoise { timber: 600, ..quiet() };
    assert_eq!(
        classify_resource(&survey(13_001, Biome::Grass, 881, false, noise), &c),
        cell(ResourceType::Timber, 500)
    );
    assert_eq!(
        classify_resource(&survey(13_001, Biome::Dirt, 881, false, noise), &c),
        cell(ResourceType::Timber, 500)
    );
    assert_eq!(classify_resource(&survey(13_000, Biome::Grass, 881, false, noise), &c), None);
    assert_eq!(classify_resource(&survey(13_001, Biome::Grass, 880, false, noise), &c), None);
    assert_eq!(classify_resource(&survey(13_001, Biome::Sand, 881, false, noise), &c), None);
    let sparse = ResourceNoise { timber: 200, ..quiet() };
    assert_eq!(classify_resource(&survey(13_001, Biome::Grass, 881, false, sparse), &c), None);
}

#[test]
fn the_rarer_resource_wins_a_cell() {
    let c = config();
    let all = ResourceNoise { timber: 1000, coal: 1000, clay: 1000, stone: 1000, fertility: 1000 };
    // coal before clay
    assert_eq!(
        classify_resource(&survey(13_500, Biome::Rock, 1000, true, all), &c),
        cell(ResourceType::Coal, 1000)
    );
    // clay before stone
    let no_coal = ResourceNoise { coal: 0, ..all };
    assert_eq!(
        classify_resource(&survey(13_500, Biome::Rock, 1000, true, no_coal), &c),
        cell(ResourceType::Clay, 1000)
    );
    // stone before fertile land
    let no_clay = ResourceNoise { clay: 0, ..no_coal };
    assert_eq!(
        classify_resource(&survey(13_500, Biome::Rock, 1000, true, no_clay), &c),
        cell(ResourceType::Stone, 1000)
    );
    // fertile land before timber
    assert_eq!(
        classify_resource(&survey(13_500, Biome::Grass, 1000, true, no_clay), &c),
        cell(ResourceType::FertileLand, 1000)
    );
    assert_eq!(
        classify_resource(&survey(13_500, Biome::Grass, 1000, false, no_clay), &c),
        cell(ResourceType::Timber, 1000)
    );
}

#[test]
fn water_is_near_within_the_radius() {
    let mut heights = vec![20_000; 100];
    heights[3 * 10 + 7] = 5_000;
    let map = Heightmap { heights, resolution: 10 };
    assert!(near_water(&map, 3, 7, 0, 10_000));
    assert!(near_water(&map, 3, 5, 2, 10_000));
    assert!(!near_water(&map, 3, 4, 2, 10_000));
    assert!(near_water(&map, 5, 9, 2, 10_000));
    assert!(!near_water(&map, 6, 9, 2, 10_000));
    assert!(near_water(&map, 0, 0, 9, 10_000));
    assert!(near_water(&map, 9, 0, u32::MAX, 10_000));
    assert!(!near_water(&map, 3, 7, 5, 5_000));
    assert!(near_water(&map, 3, 7, 5, 5_001));
    assert!(!near_water(&map, 40, 40, 30, 10_000));
    assert!(near_water(&map, 40, 40, 37, 10_000));
    assert_eq!(WATER_REACH, 5);
}

#[test]
fn resource_map_classifies_every_cell() {
    let c = TerrainConfig { map_size: 20_000, resolution: 2, height_scale: 30_000, water_level: 10_000 };
    let heights = Heightmap { heights: vec![9_000, 13_000, 14_000, 14_000], resolution: 2 };
    let biomes = generate_biome_map(&c, &heights);
    let all = ResourceNoise { timber: 600, coal: 0, clay: 650, stone: 0, fertility: -1000 };
    let noise = vec![all, all, quiet(), ResourceNoise { clay: 0, ..all }];
    let map = generate_resource_map(&c, &heights, &biomes, &noise);
    assert_eq!(map.resolution, 2);
    assert_eq!(map.cells.len(), 4);
    // under water; clay by the water; nothing in quiet noise; timber above the clay line
    assert_eq!(map.get(0, 0), None);
    assert_eq!(map.get(0, 1), cell(ResourceType::Clay, 500));
    assert_eq!(map.get(1, 0), None);
    for row in 0..2u32 {
        for col in 0..2u32 {
            let expected = classify_resource(
                &CellSurvey {
                    height: heights.get(row, col),
                    biome: biomes.get(row, col),
                    flatness: heights.cell_flatness(row, col, c.map_size),
                    near_water: near_water(&heights, row, col, WATER_REACH, c.water_level),
                    noise: noise[(row * 2 + col) as usize],
                },
                &c,
            );
            assert_eq!(map.get(row, col), expected);
        }
    }
}

#[test]
fn resources_have_their_tints() {
    assert_eq!(ResourceType::Timber.color(), [100, 300, 50, 1000]);
    assert_eq!(ResourceType::FertileLand.color(), [220, 380, 100, 1000]);
    assert_eq!(ResourceType::Coal.color(), [180, 160, 140, 1000]);
    assert_eq!(ResourceType::Clay.color(), [520, 280, 180, 1000]);
    assert_eq!(ResourceType::Stone.color(), [620, 600, 580, 1000]);
}
