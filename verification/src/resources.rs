//! What can be extracted from the terrain, cell by cell.

use crate::geometry::{floor_div, lemma_product_bound, UNIT};
use crate::terrain::{
    cell_index, cell_of, clamp, lemma_cell_order, world_cell, Biome, BiomeMap, Heightmap,
    TerrainConfig,
};
use vstd::prelude::*;

verus! {

/// A resource that an industry can extract.
#[derive(Clone, Copy, Debug, PartialEq, Eq, Structural)]
pub enum ResourceType {
    Timber,
    FertileLand,
    Coal,
    Clay,
    Stone,
}

impl ResourceType {
    /// The name shown to the player.
    pub open spec fn name(self) -> Seq<char> {
        match self {
            ResourceType::Timber => "Timber"@,
            ResourceType::FertileLand => "Fertile Land"@,
            ResourceType::Coal => "Coal"@,
            ResourceType::Clay => "Clay"@,
            ResourceType::Stone => "Stone"@,
        }
    }

    /// The tint of the resource on the map: red, green, blue and opacity,
    /// each in thousandths.
    pub open spec fn tint(self) -> Seq<u16> {
        match self {
            ResourceType::Timber => seq![100u16, 300u16, 50u16, 1000u16],
            ResourceType::FertileLand => seq![220u16, 380u16, 100u16, 1000u16],
            ResourceType::Coal => seq![180u16, 160u16, 140u16, 1000u16],
            ResourceType::Clay => seq![520u16, 280u16, 180u16, 1000u16],
            ResourceType::Stone => seq![620u16, 600u16, 580u16, 1000u16],
        }
    }

    /// The tint of the resource on the map: red, green, blue and opacity,
    /// each in thousandths.
    pub fn color(&self) -> (c: [u16; 4])
        ensures
            c@ == self.tint(),
    {
        let c = match self {
            ResourceType::Timber => [100, 300, 50, 1000],
            ResourceType::FertileLand => [220, 380, 100, 1000],
            ResourceType::Coal => [180, 160, 140, 1000],
            ResourceType::Clay => [520, 280, 180, 1000],
            ResourceType::Stone => [620, 600, 580, 1000],
        };
        assert(c@ =~= self.tint());
        c
    }

    /// The name shown to the player.
    pub fn label(&self) -> (s: &'static str)
        ensures
            s@ == self.name(),
    {
        match self {
            ResourceType::Timber => "Timber",
            ResourceType::FertileLand => "Fertile Land",
            ResourceType::Coal => "Coal",
            ResourceType::Clay => "Clay",
            ResourceType::Stone => "Stone",
        }
    }
}

/// The resource of one cell.
#[derive(Clone, Copy, Debug, PartialEq, Eq, Structural)]
pub struct ResourceCell {
    pub resource: ResourceType,
    /// How much of it is there, from 0 to `UNIT`.
    pub richness: i32,
}

/// The resources of the terrain, on the grid of the elevations.
pub struct ResourceMap {
    /// Row by row.
    pub cells: Vec<Option<ResourceCell>>,
    pub resolution: u32,
}

impl ResourceMap {
    /// The grid is square and not empty.
    pub open spec fn wf(&self) -> bool {
        self.resolution >= 1 && self.cells.len() == self.resolution * self.resolution
    }

    /// The resource at a world position: that of the cell it falls in.
    pub open spec fn resource_at(&self, x: int, z: int, map_size: int) -> Option<ResourceCell> {
        self.cells[cell_index(
            world_cell(z, map_size, self.resolution as int),
            world_cell(x, map_size, self.resolution as int),
            self.resolution as int,
        )]
    }

    /// The resource of a cell; a row or column past the edge counts as the
    /// last.
    pub fn get(&self, row: u32, col: u32) -> (cell: Option<ResourceCell>)
        requires
            self.wf(),
        ensures
            cell == self.cells[cell_index(row as int, col as int, self.resolution as int)],
    {
        let res = self.resolution;
        let r = if row < res { row } else { res - 1 };
        let c = if col < res { col } else { res - 1 };
        assert(0 <= r * res + c < res * res) by (nonlinear_arith)
            requires
                0 <= r < res,
                0 <= c < res,
        ;
        assert(r * res >= 0) by (nonlinear_arith)
            requires
                r >= 0,
                res >= 0,
        ;
        self.cells[r as usize * res as usize + c as usize]
    }

    /// The resource at a world position.
    pub fn sample_world(&self, x: i32, z: i32, map_size: i32) -> (cell: Option<ResourceCell>)
        requires
            self.wf(),
            map_size > 0,
        ensures
            cell == self.resource_at(x as int, z as int, map_size as int),
    {
        let col = cell_of(x, map_size, self.resolution);
        let row = cell_of(z, map_size, self.resolution);
        self.get(row, col)
    }
}

/// Whether any cell at most `radius` rows and columns from (`row`, `col`) lies
/// below `water_level`.
pub open spec fn water_within(
    heightmap: &Heightmap,
    row: int,
    col: int,
    radius: int,
    water_level: int,
) -> bool {
    exists|r: int, c: int|
        0 <= r < heightmap.resolution && 0 <= c < heightmap.resolution && row - radius <= r <= row
            + radius && col - radius <= c <= col + radius && #[trigger] heightmap.at(r, c)
            < water_level
}

/// Whether any cell at most `radius` rows and columns away lies below
/// `water_level`.
pub fn near_water(heightmap: &Heightmap, row: u32, col: u32, radius: u32, water_level: i32) -> (near:
    bool)
    requires
        heightmap.wf(),
    ensures
        near == water_within(heightmap, row as int, col as int, radius as int, water_level as int),
{
    let res = heightmap.resolution as u64;
    let r_start: u64 = if row >= radius { (row - radius) as u64 } else { 0 };
    let r_end: u64 = if row as u64 + radius as u64 + 1 < res {
        row as u64 + radius as u64 + 1
    } else {
        res
    };
    let c_start: u64 = if col >= radius { (col - radius) as u64 } else { 0 };
    let c_end: u64 = if col as u64 + radius as u64 + 1 < res {
        col as u64 + radius as u64 + 1
    } else {
        res
    };
    let mut r: u64 = r_start;
    while r < r_end
        invariant
            heightmap.wf(),
            res == heightmap.resolution,
            r_start <= r,
            r_end <= res,
            c_end <= res,
            r_start == (if row >= radius { row - radius } else { 0 }),
            c_start == (if col >= radius { col - radius } else { 0 }),
            r_end == (if row + radius + 1 < res { row + radius + 1 } else { res as int }),
            c_end == (if col + radius + 1 < res { col + radius + 1 } else { res as int }),
            forall|i: int, j: int|
                r_start <= i < r && c_start <= j < c_end ==> #[trigger] heightmap.at(i, j)
                    >= water_level,
        decreases r_end + 1 - r,
    {
        let mut c: u64 = c_start;
        while c < c_end
            invariant
                heightmap.wf(),
                res == heightmap.resolution,
                r_start <= r < r_end,
                r_end <= res,
                c_end <= res,
                c_start <= c,
                r_start == (if row >= radius { row - radius } else { 0 }),
                c_start == (if col >= radius { col - radius } else { 0 }),
                r_end == (if row + radius + 1 < res { row + radius + 1 } else { res as int }),
                c_end == (if col + radius + 1 < res { col + radius + 1 } else { res as int }),
                forall|i: int, j: int|
                    r_start <= i < r && c_start <= j < c_end ==> #[trigger] heightmap.at(i, j)
                        >= water_level,
                forall|j: int| c_start <= j < c ==> #[trigger] heightmap.at(r as int, j) >= water_level,
            decreases c_end + 1 - c,
        {
            if heightmap.get(r as u32, c as u32) < water_level {
                assert(heightmap.at(r as int, c as int) < water_level);
                return true;
            }
            c += 1;
        }
        r += 1;
    }
    proof {
        assert forall|i: int, j: int|
            0 <= i < heightmap.resolution && 0 <= j < heightmap.resolution && row - radius <= i
                <= row + radius && col - radius <= j <= col + radius implies !(
        #[trigger] heightmap.at(i, j) < water_level) by {
            assert(r_start <= i < r_end && c_start <= j < c_end);
        }
    }
    false
}

/// The five noise fields at one cell, each from `-UNIT` to `UNIT`.
#[derive(Clone, Copy, Debug)]
pub struct ResourceNoise {
    pub timber: i32,
    pub coal: i32,
    pub clay: i32,
    pub stone: i32,
    pub fertility: i32,
}

/// What is known of a cell when its resource is decided.
#[derive(Clone, Copy, Debug)]
pub struct CellSurvey {
    /// Elevation, in steps.
    pub height: i32,
    pub biome: Biome,
    /// From 0 to `UNIT`.
    pub flatness: i32,
    /// Whether water lies within five cells.
    pub near_water: bool,
    pub noise: ResourceNoise,
}

/// How far `noise` lies above `floor`, as a share of `range`, held between
/// `least` and `UNIT`.
pub open spec fn richness_of(noise: int, floor: int, range: int, least: int) -> int {
    clamp(((noise - floor) * UNIT) / range, least, UNIT as int)
}

/// The resource of a cell. Each cell has one at most, the first that fits
/// of: none under water; coal in high dirt or rock; clay just above nearby
/// water; stone in rock; fertile land on level ground by the water; timber
/// on gentle grass or dirt well above the water.
pub open spec fn resource_of(cell: CellSurvey, config: TerrainConfig) -> Option<ResourceCell> {
    let h = cell.height as int;
    let water = config.water_level as int;
    if h < water {
        None
    } else if (cell.biome == Biome::Dirt || cell.biome == Biome::Rock) && 10 * h > 4
        * config.height_scale && cell.noise.coal > 500 {
        Some(
            ResourceCell {
                resource: ResourceType::Coal,
                richness: richness_of(cell.noise.coal as int, 500, 500, 0) as i32,
            },
        )
    } else if cell.near_water && h > water && h < water + 4 * UNIT && cell.noise.clay > 300 {
        Some(
            ResourceCell {
                resource: ResourceType::Clay,
                richness: richness_of(cell.noise.clay as int, 300, 700, 0) as i32,
            },
        )
    } else if cell.biome == Biome::Rock && cell.noise.stone > 300 {
        Some(
            ResourceCell {
                resource: ResourceType::Stone,
                richness: richness_of(cell.noise.stone as int, 300, 700, 0) as i32,
            },
        )
    } else if cell.flatness > 960 && cell.near_water && h > water && h < water + 6 * UNIT
        && cell.noise.fertility > -200 {
        Some(
            ResourceCell {
                resource: ResourceType::FertileLand,
                richness: richness_of(cell.noise.fertility as int, -200, 1200, 300) as i32,
            },
        )
    } else if (cell.biome == Biome::Grass || cell.biome == Biome::Dirt) && cell.flatness > 880 && h
        > water + 3 * UNIT && cell.noise.timber > 200 {
        Some(
            ResourceCell {
                resource: ResourceType::Timber,
                richness: richness_of(cell.noise.timber as int, 200, 800, 0) as i32,
            },
        )
    } else {
        None
    }
}

fn richness(noise: i32, floor: i32, range: i32, least: i32) -> (r: i32)
    requires
        range > 0,
        0 <= least <= UNIT,
        -UNIT <= floor <= UNIT,
    ensures
        r == richness_of(noise as int, floor as int, range as int, least as int),
        least <= r <= UNIT,
{
    proof {
        lemma_product_bound(noise as int - floor as int, UNIT as int, 0x1_0000_0000, 1000);
    }
    let q = floor_div((noise as i128 - floor as i128) * (UNIT as i128), range as i128);
    if q < least as i128 {
        least
    } else if q > UNIT as i128 {
        UNIT
    } else {
        q as i32
    }
}

/// The resource of a cell.
pub fn classify_resource(cell: &CellSurvey, config: &TerrainConfig) -> (r: Option<ResourceCell>)
    ensures
        r == resource_of(*cell, *config),
{
    let h = cell.height as i64;
    let water = config.water_level as i64;
    let unit = UNIT as i64;
    let dirt = match cell.biome {
        Biome::Dirt => true,
        _ => false,
    };
    let rock = match cell.biome {
        Biome::Rock => true,
        _ => false,
    };
    let grass = match cell.biome {
        Biome::Grass => true,
        _ => false,
    };
    if h < water {
        None
    } else if (dirt || rock) && 10 * h > 4 * (config.height_scale as i64) && cell.noise.coal > 500 {
        Some(
            ResourceCell {
                resource: ResourceType::Coal,
                richness: richness(cell.noise.coal, 500, 500, 0),
            },
        )
    } else if cell.near_water && h > water && h < water + 4 * unit && cell.noise.clay > 300 {
        Some(
            ResourceCell {
                resource: ResourceType::Clay,
                richness: richness(cell.noise.clay, 300, 700, 0),
            },
        )
    } else if rock && cell.noise.stone > 300 {
        Some(
            ResourceCell {
                resource: ResourceType::Stone,
                richness: richness(cell.noise.stone, 300, 700, 0),
            },
        )
    } else if cell.flatness > 960 && cell.near_water && h > water && h < water + 6 * unit
        && cell.noise.fertility > -200 {
        Some(
            ResourceCell {
                resource: ResourceType::FertileLand,
                richness: richness(cell.noise.fertility, -200, 1200, 300),
            },
        )
    } else if (grass || dirt) && cell.flatness > 880 && h > water + 3 * unit && cell.noise.timber
        > 200 {
        Some(
            ResourceCell {
                resource: ResourceType::Timber,
                richness: richness(cell.noise.timber, 200, 800, 0),
            },
        )
    } else {
        None
    }
}

/// How many cells away water still counts as near.
pub const WATER_REACH: u32 = 5;

/// What is known of cell (`row`, `col`), given its noise.
pub open spec fn survey_of(
    heightmap: &Heightmap,
    biome_map: &BiomeMap,
    config: TerrainConfig,
    row: int,
    col: int,
    noise: ResourceNoise,
) -> CellSurvey {
    CellSurvey {
        height: heightmap.at(row, col) as i32,
        biome: biome_map.biomes[cell_index(row, col, biome_map.resolution as int)],
        flatness: heightmap.flatness(row, col, config.map_size as int) as i32,
        near_water: water_within(heightmap, row, col, WATER_REACH as int, config.water_level as int),
        noise,
    }
}

/// Gives each cell of the terrain its resource, from the terrain and one set
/// of noise samples for each cell, row by row.
pub fn generate_resource_map(
    config: &TerrainConfig,
    heightmap: &Heightmap,
    biome_map: &BiomeMap,
    noise: &[ResourceNoise],
) -> (map: ResourceMap)
    requires
        config.wf(),
        heightmap.wf(),
        biome_map.wf(),
        biome_map.resolution == heightmap.resolution,
        noise.len() == heightmap.resolution * heightmap.resolution,
    ensures
        map.wf(),
        map.resolution == heightmap.resolution,
        forall|row: int, col: int|
            0 <= row < map.resolution && 0 <= col < map.resolution ==> #[trigger] map.cells[row
                * map.resolution + col] == resource_of(
                survey_of(heightmap, biome_map, *config, row, col, noise[row * map.resolution + col]),
                *config,
            ),
{
    let res = heightmap.resolution;
    let mut cells: Vec<Option<ResourceCell>> = Vec::new();
    let mut row: u32 = 0;
    while row < res
        invariant
            row <= res,
            res == heightmap.resolution,
            res == biome_map.resolution,
            heightmap.wf(),
            biome_map.wf(),
            config.wf(),
            noise.len() == res * res,
            cells.len() == row * res,
            forall|r: int, c: int|
                0 <= r < row && 0 <= c < res ==> #[trigger] cells[r * res + c] == resource_of(
                    survey_of(heightmap, biome_map, *config, r, c, noise[r * res + c]),
                    *config,
                ),
        decreases res - row,
    {
        let mut col: u32 = 0;
        while col < res
            invariant
                row < res,
                col <= res,
                res == heightmap.resolution,
                res == biome_map.resolution,
                heightmap.wf(),
                biome_map.wf(),
                config.wf(),
                noise.len() == res * res,
                cells.len() == row * res + col,
                forall|r: int, c: int|
                    0 <= r < row && 0 <= c < res ==> #[trigger] cells[r * res + c] == resource_of(
                        survey_of(heightmap, biome_map, *config, r, c, noise[r * res + c]),
                        *config,
                    ),
                forall|c: int|
                    0 <= c < col ==> #[trigger] cells[row * res + c] == resource_of(
                        survey_of(heightmap, biome_map, *config, row as int, c, noise[row * res + c]),
                        *config,
                    ),
            decreases res - col,
        {
            proof {
                lemma_cell_order(row as int, col as int, row + 1, res as int);
                assert((row + 1) * res <= res * res) by (nonlinear_arith)
                    requires
                        row < res,
                ;
                assert((row + 1) * res == row * res + res) by (nonlinear_arith);
            }
            let survey = CellSurvey {
                height: heightmap.get(row, col),
                biome: biome_map.get(row, col),
                flatness: heightmap.cell_flatness(row, col, config.map_size),
                near_water: near_water(heightmap, row, col, WATER_REACH, config.water_level),
                noise: noise[cells.len()],
            };
            let ghost before = cells@;
            cells.push(classify_resource(&survey, config));
            proof {
                assert(survey == survey_of(
                    heightmap,
                    biome_map,
                    *config,
                    row as int,
                    col as int,
                    noise[row * res + col],
                ));
                assert forall|r: int, c: int| 0 <= r < row && 0 <= c < res implies #[trigger] cells[r
                    * res + c] == resource_of(
                    survey_of(heightmap, biome_map, *config, r, c, noise[r * res + c]),
                    *config,
                ) by {
                    lemma_cell_order(r, c, row as int, res as int);
                    assert(cells[r * res + c] == before[r * res + c]);
                }
            }
            col += 1;
        }
        proof {
            assert((row + 1) * res == row * res + res) by (nonlinear_arith);
            assert forall|r: int, c: int| 0 <= r < row + 1 && 0 <= c < res implies #[trigger] cells[r
                * res + c] == resource_of(
                survey_of(heightmap, biome_map, *config, r, c, noise[r * res + c]),
                *config,
            ) by {
                if r == row {
                    assert(cells[row * res + c] == resource_of(
                        survey_of(heightmap, biome_map, *config, row as int, c, noise[row * res + c]),
                        *config,
                    ));
                }
            }
        }
        row += 1;
    }
    ResourceMap { cells, resolution: res }
}

} // verus!
