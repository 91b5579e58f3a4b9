//! The terrain as a square grid of elevations, and what is read off it:
//! height and flatness at a world position, and the biome of each cell.

use crate::geometry::{
    floor_div, isqrt, lemma_product_bound, lemma_square_bound, sqrt_floor, UNIT,
};
use vstd::prelude::*;

verus! {

/// Size and levels of the terrain.
#[derive(Clone, Copy, Debug)]
pub struct TerrainConfig {
    /// Side of the square map, in steps.
    pub map_size: i32,
    /// Grid cells along each side.
    pub resolution: u32,
    /// Highest elevation, in steps.
    pub height_scale: i32,
    /// Elevation of the water surface, in steps.
    pub water_level: i32,
}

impl TerrainConfig {
    /// The map has a size, the grid has cells, and heights have a scale.
    pub open spec fn wf(self) -> bool {
        self.map_size > 0 && self.resolution >= 1 && self.height_scale > 0
    }
}

impl Default for TerrainConfig {
    fn default() -> (r: Self)
        ensures
            r.map_size == 500 * UNIT,
            r.resolution == 256,
            r.height_scale == 30 * UNIT,
            r.water_level == 10 * UNIT,
            r.wf(),
    {
        TerrainConfig {
            map_size: 500 * UNIT,
            resolution: 256,
            height_scale: 30 * UNIT,
            water_level: 10 * UNIT,
        }
    }
}

/// What covers a cell of terrain.
#[derive(Clone, Copy, Debug, PartialEq, Eq, Structural)]
pub enum Biome {
    /// At or just above the water.
    Sand,
    /// Flat land at low or middle elevation.
    Grass,
    /// Moderate slopes, or the upper middle elevation.
    Dirt,
    /// Steep slopes, or high elevation.
    Rock,
}

impl Biome {
    /// The colour of the biome: red, green, blue and opacity, each in
    /// thousandths.
    pub open spec fn tint(self) -> Seq<u16> {
        match self {
            Biome::Sand => seq![760u16, 700u16, 500u16, 1000u16],
            Biome::Grass => seq![300u16, 500u16, 200u16, 1000u16],
            Biome::Dirt => seq![550u16, 400u16, 250u16, 1000u16],
            Biome::Rock => seq![500u16, 480u16, 450u16, 1000u16],
        }
    }

    /// The colour of the biome: red, green, blue and opacity, each in
    /// thousandths.
    pub fn color(&self) -> (c: [u16; 4])
        ensures
            c@ == self.tint(),
    {
        let c = match self {
            Biome::Sand => [760, 700, 500, 1000],
            Biome::Grass => [300, 500, 200, 1000],
            Biome::Dirt => [550, 400, 250, 1000],
            Biome::Rock => [500, 480, 450, 1000],
        };
        assert(c@ =~= self.tint());
        c
    }
}

/// `v` held to the range from `lo` to `hi`.
pub open spec fn clamp(v: int, lo: int, hi: int) -> int {
    if v < lo {
        lo
    } else if v > hi {
        hi
    } else {
        v
    }
}

/// Place of cell (`row`, `col`) in a row-major grid of `resolution` cells a
/// side; a row or column past the edge counts as the last.
pub open spec fn cell_index(row: int, col: int, resolution: int) -> int {
    clamp(row, 0, resolution - 1) * resolution + clamp(col, 0, resolution - 1)
}

/// The row or column of the cell that world coordinate `x` falls in: the map
/// is centred on the origin, and a coordinate off the map counts as the
/// nearest edge.
pub open spec fn world_cell(x: int, map_size: int, resolution: int) -> int {
    clamp(((2 * x + map_size) * resolution) / (2 * map_size), 0, resolution - 1)
}

fn grid_index(row: u32, col: u32, resolution: u32) -> (i: usize)
    requires
        resolution >= 1,
        resolution * resolution <= usize::MAX,
    ensures
        i == cell_index(row as int, col as int, resolution as int),
        0 <= i < resolution * resolution,
{
    let r = if row < resolution { row } else { resolution - 1 };
    let c = if col < resolution { col } else { resolution - 1 };
    assert(r * resolution + c < resolution * resolution) by (nonlinear_arith)
        requires
            0 <= r < resolution,
            0 <= c < resolution,
    ;
    assert(r * resolution >= 0) by (nonlinear_arith)
        requires
            r >= 0,
            resolution >= 0,
    ;
    r as usize * resolution as usize + c as usize
}

/// The row or column of the cell that world coordinate `x` falls in.
pub fn cell_of(x: i32, map_size: i32, resolution: u32) -> (c: u32)
    requires
        map_size > 0,
        resolution >= 1,
    ensures
        c == world_cell(x as int, map_size as int, resolution as int),
        c < resolution,
{
    let shifted: i128 = 2 * (x as i128) + map_size as i128;
    proof {
        lemma_product_bound(shifted as int, resolution as int, 0x2_0000_0000, 0x1_0000_0000);
    }
    let q = floor_div(shifted * (resolution as i128), 2 * (map_size as i128));
    if q < 0 {
        0
    } else if q > (resolution - 1) as i128 {
        resolution - 1
    } else {
        q as u32
    }
}

/// The biome of each cell of the terrain.
pub struct BiomeMap {
    /// Row by row.
    pub biomes: Vec<Biome>,
    pub resolution: u32,
}

impl BiomeMap {
    /// The grid is square and not empty.
    pub open spec fn wf(&self) -> bool {
        self.resolution >= 1 && self.biomes.len() == self.resolution * self.resolution
    }

    /// The biome at a cell; a row or column past the edge counts as the last.
    pub fn get(&self, row: u32, col: u32) -> (b: Biome)
        requires
            self.wf(),
        ensures
            b == self.biomes[cell_index(row as int, col as int, self.resolution as int)],
    {
        self.biomes[grid_index(row, col, self.resolution)]
    }
}

/// The elevation of each cell of the terrain.
pub struct Heightmap {
    /// Row by row, in steps.
    pub heights: Vec<i32>,
    pub resolution: u32,
}

impl Heightmap {
    /// The grid is square and not empty.
    pub open spec fn wf(&self) -> bool {
        self.resolution >= 1 && self.heights.len() == self.resolution * self.resolution
    }

    /// Elevation of a cell.
    pub open spec fn at(&self, row: int, col: int) -> int {
        self.heights[cell_index(row, col, self.resolution as int)] as int
    }

    /// Elevation at a world position: that of the cell it falls in.
    pub open spec fn height_at(&self, x: int, z: int, map_size: int) -> int {
        self.at(
            world_cell(z, map_size, self.resolution as int),
            world_cell(x, map_size, self.resolution as int),
        )
    }

    /// Twice the side of a cell, rounded down.
    pub open spec fn cell_span(&self, map_size: int) -> int {
        (2 * map_size) / (self.resolution as int)
    }

    /// Squared length of the surface normal at a cell, which is the vector
    /// (west minus east, twice the cell's side, south minus north) of the
    /// neighbours' elevations; past an edge the cell is its own neighbour.
    pub open spec fn normal_sq(&self, row: int, col: int, map_size: int) -> int {
        let dx = self.at(row, col - 1) - self.at(row, col + 1);
        let dz = self.at(row - 1, col) - self.at(row + 1, col);
        dx * dx + self.cell_span(map_size) * self.cell_span(map_size) + dz * dz
    }

    /// How level the terrain is at a cell: the upward part of the unit
    /// surface normal, from 0 for a cliff to `UNIT` for level ground.
    pub open spec fn flatness(&self, row: int, col: int, map_size: int) -> int {
        if self.normal_sq(row, col, map_size) == 0 {
            UNIT as int
        } else {
            (self.cell_span(map_size) * UNIT) / sqrt_floor(self.normal_sq(row, col, map_size))
        }
    }

    /// How level the terrain is at a world position.
    pub open spec fn flatness_at(&self, x: int, z: int, map_size: int) -> int {
        self.flatness(
            world_cell(z, map_size, self.resolution as int),
            world_cell(x, map_size, self.resolution as int),
            map_size,
        )
    }

    /// Elevation of a cell; a row or column past the edge counts as the last.
    pub fn get(&self, row: u32, col: u32) -> (h: i32)
        requires
            self.wf(),
        ensures
            h == self.at(row as int, col as int),
    {
        self.heights[grid_index(row, col, self.resolution)]
    }

    /// Elevation at a world position.
    pub fn sample_world(&self, x: i32, z: i32, map_size: i32) -> (h: i32)
        requires
            self.wf(),
            map_size > 0,
        ensures
            h == self.height_at(x as int, z as int, map_size as int),
    {
        let col = cell_of(x, map_size, self.resolution);
        let row = cell_of(z, map_size, self.resolution);
        self.get(row, col)
    }

    /// How level the terrain is at a cell.
    pub fn cell_flatness(&self, row: u32, col: u32, map_size: i32) -> (f: i32)
        requires
            self.wf(),
            map_size > 0,
            row < self.resolution,
            col < self.resolution,
        ensures
            f == self.flatness(row as int, col as int, map_size as int),
            0 <= f <= UNIT,
    {
        let res = self.resolution;
        let height = self.get(row, col);
        let h_left = if col > 0 { self.get(row, col - 1) } else { height };
        let h_right = if col < res - 1 { self.get(row, col + 1) } else { height };
        let h_down = if row > 0 { self.get(row - 1, col) } else { height };
        let h_up = if row < res - 1 { self.get(row + 1, col) } else { height };
        let dx: i128 = h_left as i128 - h_right as i128;
        let dz: i128 = h_down as i128 - h_up as i128;
        let span: i128 = 2 * (map_size as i128) / (res as i128);
        proof {
            assert(self.at(row as int, col - 1) == h_left);
            assert(self.at(row as int, col + 1) == h_right);
            assert(self.at(row - 1, col as int) == h_down);
            assert(self.at(row + 1, col as int) == h_up);
            assert(0 <= span <= 0x1_0000_0000) by (nonlinear_arith)
                requires
                    span == (2 * map_size) / (res as int),
                    0 < map_size <= 0x7fff_ffff,
                    res >= 1,
            ;
            lemma_square_bound(dx as int);
            lemma_square_bound(dz as int);
            assert(0 <= span * span <= 0x1_0000_0000_0000_0000) by (nonlinear_arith)
                requires
                    0 <= span <= 0x1_0000_0000,
            ;
        }
        let n: i128 = dx * dx + span * span + dz * dz;
        if n == 0 {
            return UNIT;
        }
        let root = isqrt(n as u128);
        proof {
            assert(root >= span && root >= 1) by (nonlinear_arith)
                requires
                    root >= 0,
                    (root + 1) * (root + 1) > n,
                    n >= span * span,
                    n >= 1,
                    span >= 0,
            ;
            assert(0 <= (span * UNIT) / (root as int) <= UNIT) by (nonlinear_arith)
                requires
                    0 <= span <= root,
                    root >= 1,
                    UNIT == 1000,
            ;
        }
        (span * (UNIT as i128) / (root as i128)) as i32
    }

    /// How level the terrain is at a world position, from 0 to `UNIT`.
    pub fn sample_flatness(&self, x: i32, z: i32, map_size: i32) -> (f: i32)
        requires
            self.wf(),
            map_size > 0,
        ensures
            f == self.flatness_at(x as int, z as int, map_size as int),
            0 <= f <= UNIT,
    {
        let col = cell_of(x, map_size, self.resolution);
        let row = cell_of(z, map_size, self.resolution);
        self.cell_flatness(row, col, map_size)
    }
}

/// Terrain this close above the water is shore: two world units.
pub const SHORE_MARGIN: i32 = 2 * UNIT;

/// The biome of terrain at elevation `height` and of flatness `flatness`:
/// sand by the water, rock where steep or high, dirt where sloping or in the
/// upper middle, grass elsewhere.
pub open spec fn biome_of(height: int, flatness: int, config: TerrainConfig) -> Biome {
    if height < config.water_level + SHORE_MARGIN {
        Biome::Sand
    } else if 100 * flatness < 85 * UNIT {
        Biome::Rock
    } else if 10 * height > 7 * config.height_scale {
        Biome::Rock
    } else if 100 * flatness < 93 * UNIT || 2 * height > config.height_scale {
        Biome::Dirt
    } else {
        Biome::Grass
    }
}

/// The biome of terrain at elevation `height` and of flatness `flatness`.
pub fn classify_biome(height: i32, flatness: i32, config: &TerrainConfig) -> (b: Biome)
    ensures
        b == biome_of(height as int, flatness as int, *config),
{
    let h = height as i64;
    let f = flatness as i64;
    if h < config.water_level as i64 + SHORE_MARGIN as i64 {
        Biome::Sand
    } else if 100 * f < 85 * (UNIT as i64) {
        Biome::Rock
    } else if 10 * h > 7 * (config.height_scale as i64) {
        Biome::Rock
    } else if 100 * f < 93 * (UNIT as i64) || 2 * h > config.height_scale as i64 {
        Biome::Dirt
    } else {
        Biome::Grass
    }
}

/// The elevation that a noise sample stands for: the sample, from `-UNIT` to
/// `UNIT`, is brought to the range from 0 to `UNIT` and scaled to the
/// terrain's highest elevation.
pub open spec fn height_of_sample(sample: int, height_scale: int) -> int {
    (clamp((sample + UNIT) / 2, 0, UNIT as int) * height_scale) / (UNIT as int)
}

/// Builds the elevation grid from one noise sample for each cell, row by row.
pub fn generate_heightmap(config: &TerrainConfig, samples: &[i32]) -> (map: Heightmap)
    requires
        config.wf(),
        samples.len() == config.resolution * config.resolution,
    ensures
        map.wf(),
        map.resolution == config.resolution,
        forall|i: int|
            0 <= i < samples.len() ==> #[trigger] map.heights[i] == height_of_sample(
                samples[i] as int,
                config.height_scale as int,
            ),
{
    let mut heights: Vec<i32> = Vec::new();
    let mut i: usize = 0;
    while i < samples.len()
        invariant
            i <= samples.len(),
            config.height_scale > 0,
            heights.len() == i,
            forall|j: int|
                0 <= j < i ==> #[trigger] heights[j] == height_of_sample(
                    samples[j] as int,
                    config.height_scale as int,
                ),
        decreases samples.len() - i,
    {
        let half = floor_div(samples[i] as i128 + UNIT as i128, 2);
        let normalized: i128 = if half < 0 {
            0
        } else if half > UNIT as i128 {
            UNIT as i128
        } else {
            half
        };
        proof {
            lemma_product_bound(normalized as int, config.height_scale as int, 1000, 0x8000_0000);
            assert(0 <= (normalized * config.height_scale) / (UNIT as int) <= config.height_scale)
                by (nonlinear_arith)
                requires
                    0 <= normalized <= 1000,
                    config.height_scale > 0,
                    UNIT == 1000,
            ;
        }
        let h: i128 = normalized * (config.height_scale as i128) / (UNIT as i128);
        heights.push(h as i32);
        i += 1;
    }
    Heightmap { heights, resolution: config.resolution }
}

/// Gives each cell of the terrain its biome.
pub fn generate_biome_map(config: &TerrainConfig, heightmap: &Heightmap) -> (map: BiomeMap)
    requires
        config.wf(),
        heightmap.wf(),
    ensures
        map.wf(),
        map.resolution == heightmap.resolution,
        forall|row: int, col: int|
            0 <= row < map.resolution && 0 <= col < map.resolution ==> #[trigger] map.biomes[row
                * map.resolution + col] == biome_of(
                heightmap.at(row, col),
                heightmap.flatness(row, col, config.map_size as int),
                *config,
            ),
{
    let res = heightmap.resolution;
    let mut biomes: Vec<Biome> = Vec::new();
    let mut row: u32 = 0;
    while row < res
        invariant
            row <= res,
            res == heightmap.resolution,
            heightmap.wf(),
            config.wf(),
            biomes.len() == row * res,
            forall|r: int, c: int|
                0 <= r < row && 0 <= c < res ==> #[trigger] biomes[r * res + c] == biome_of(
                    heightmap.at(r, c),
                    heightmap.flatness(r, c, config.map_size as int),
                    *config,
                ),
        decreases res - row,
    {
        let mut col: u32 = 0;
        while col < res
            invariant
                row < res,
                col <= res,
                res == heightmap.resolution,
                heightmap.wf(),
                config.wf(),
                biomes.len() == row * res + col,
                forall|r: int, c: int|
                    0 <= r < row && 0 <= c < res ==> #[trigger] biomes[r * res + c] == biome_of(
                        heightmap.at(r, c),
                        heightmap.flatness(r, c, config.map_size as int),
                        *config,
                    ),
                forall|c: int|
                    0 <= c < col ==> #[trigger] biomes[row * res + c] == biome_of(
                        heightmap.at(row as int, c),
                        heightmap.flatness(row as int, c, config.map_size as int),
                        *config,
                    ),
            decreases res - col,
        {
            let height = heightmap.get(row, col);
            let flatness = heightmap.cell_flatness(row, col, config.map_size);
            let ghost before = biomes@;
            biomes.push(classify_biome(height, flatness, config));
            proof {
                assert forall|r: int, c: int| 0 <= r < row && 0 <= c < res implies #[trigger] biomes[r
                    * res + c] == biome_of(
                    heightmap.at(r, c),
                    heightmap.flatness(r, c, config.map_size as int),
                    *config,
                ) by {
                    lemma_cell_order(r, c, row as int, res as int);
                    assert(biomes[r * res + c] == before[r * res + c]);
                }
            }
            col += 1;
        }
        proof {
            assert((row + 1) * res == row * res + res) by (nonlinear_arith);
            assert forall|r: int, c: int| 0 <= r < row + 1 && 0 <= c < res implies #[trigger] biomes[r
                * res + c] == biome_of(
                heightmap.at(r, c),
                heightmap.flatness(r, c, config.map_size as int),
                *config,
            ) by {
                if r == row {
                    assert(biomes[row * res + c] == biome_of(
                        heightmap.at(row as int, c),
                        heightmap.flatness(row as int, c, config.map_size as int),
                        *config,
                    ));
                }
            }
        }
        row += 1;
    }
    BiomeMap { biomes, resolution: res }
}

/// A cell of an earlier row comes before every cell of a later row.
pub proof fn lemma_cell_order(r: int, c: int, row: int, res: int)
    by (nonlinear_arith)
    requires
        0 <= r < row,
        0 <= c < res,
    ensures
        0 <= r * res + c < row * res,
{
}

} // verus!
