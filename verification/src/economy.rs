//! The catalog of buildings and the decision of what to build next.

use crate::building::{
    best_candidate, find_candidates, is_best, road_samples, same_resource, score_of, Candidate,
    Survey, CURVE_SAMPLES,
};
use crate::geometry::{dist_sq3, lemma_square_bound, Point2, Point3, UNIT};
use crate::resources::{ResourceMap, ResourceType};
use crate::road::{lemma_ids_below, NetworkView, RoadNetwork, SegmentId};
use crate::spline::sample_catmull_rom;
use crate::lot::Lot;
use crate::terrain::{Heightmap, TerrainConfig};
use vstd::prelude::*;

verus! {

/// What a building is for.
#[derive(Clone, Copy, Debug, PartialEq, Eq, Structural)]
pub enum BuildingCategory {
    Producer,
    Residential,
}

/// A kind of building.
#[derive(Clone, Copy, Debug)]
pub struct BuildingDef {
    pub label: &'static str,
    pub category: BuildingCategory,
    /// Half the lot's width along the road and half its depth, in steps.
    pub lot_half_extents: Point2,
    pub workers_required: u32,
    pub workers_provided: u32,
    /// The resource a producer extracts.
    pub extracts_from: Option<ResourceType>,
    /// How far an extractor's claim on its resource reaches, in steps.
    pub extraction_radius: i32,
}

/// Place of the logging camp in the catalog.
pub const LOGGING_CAMP: usize = 0;

/// Place of the worker cottage in the catalog.
pub const WORKER_COTTAGE: usize = 1;

/// The catalog as plain values: category, lot, workers needed and housed,
/// resource and reach of each kind, in order.
pub open spec fn catalog_entry(i: int) -> (
    BuildingCategory,
    Point2,
    u32,
    u32,
    Option<ResourceType>,
    i32,
) {
    if i == 0 {
        (
            BuildingCategory::Producer,
            Point2 { x: 6000, y: 5000 },
            5,
            0,
            Some(ResourceType::Timber),
            60000,
        )
    } else {
        (BuildingCategory::Residential, Point2 { x: 4000, y: 4000 }, 0, 2, None, 0)
    }
}

/// The kinds of building there are: the logging camp, a timber producer on a
/// lot of twelve by ten world units that needs five workers, and the worker
/// cottage, a home on a lot of eight by eight that houses two.
pub fn building_defs() -> (defs: Vec<BuildingDef>)
    ensures
        defs.len() == 2,
        forall|i: int|
            0 <= i < 2 ==> (
                (#[trigger] defs[i]).category,
                defs[i].lot_half_extents,
                defs[i].workers_required,
                defs[i].workers_provided,
                defs[i].extracts_from,
                defs[i].extraction_radius,
            ) == catalog_entry(i),
        defs[0].label@ == "Logging Camp"@,
        defs[1].label@ == "Worker Cottage"@,
{
    let mut defs: Vec<BuildingDef> = Vec::new();
    defs.push(
        BuildingDef {
            label: "Logging Camp",
            category: BuildingCategory::Producer,
            lot_half_extents: Point2 { x: 6 * UNIT, y: 5 * UNIT },
            workers_required: 5,
            workers_provided: 0,
            extracts_from: Some(ResourceType::Timber),
            extraction_radius: 60 * UNIT,
        },
    );
    defs.push(
        BuildingDef {
            label: "Worker Cottage",
            category: BuildingCategory::Residential,
            lot_half_extents: Point2 { x: 4 * UNIT, y: 4 * UNIT },
            workers_required: 0,
            workers_provided: 2,
            extracts_from: None,
            extraction_radius: 0,
        },
    );
    defs
}

/// Whether a kind of building can be built now, and if not, why not.
#[derive(Clone, Copy, Debug, PartialEq, Eq, Structural)]
pub enum Viability {
    /// Not yet looked at.
    Unknown,
    Viable,
    /// There are no roads to build along.
    NoRoads,
    /// The kind extracts nothing.
    NoExtractionResource,
    /// Every deposit along the roads has an extractor within reach.
    ExtractorNearby,
    /// No road runs over a deposit.
    NoResourceOnRoad,
    /// The homes already house as many workers as are needed.
    WorkersSatisfied,
}

impl Default for Viability {
    fn default() -> (r: Self)
        ensures
            r == Viability::Unknown,
    {
        Viability::Unknown
    }
}

impl Viability {
    /// The reason in words.
    pub open spec fn words(self) -> Seq<char> {
        match self {
            Viability::Unknown => ""@,
            Viability::Viable => "ok"@,
            Viability::NoRoads => "no roads"@,
            Viability::NoExtractionResource => "no extraction resource"@,
            Viability::ExtractorNearby => "extractor nearby"@,
            Viability::NoResourceOnRoad => "no resource on road"@,
            Viability::WorkersSatisfied => "workers satisfied"@,
        }
    }

    pub fn is_viable(&self) -> (r: bool)
        ensures
            r == (*self == Viability::Viable),
    {
        match self {
            Viability::Viable => true,
            _ => false,
        }
    }

    /// The reason in words.
    pub fn reason(&self) -> (s: &'static str)
        ensures
            s@ == self.words(),
    {
        match self {
            Viability::Unknown => "",
            Viability::Viable => "ok",
            Viability::NoRoads => "no roads",
            Viability::NoExtractionResource => "no extraction resource",
            Viability::ExtractorNearby => "extractor nearby",
            Viability::NoResourceOnRoad => "no resource on road",
            Viability::WorkersSatisfied => "workers satisfied",
        }
    }
}

/// A deposit must be richer than this to be worth a producer: a fifth.
pub const MIN_RICHNESS: i32 = 200;

/// Whether the resource that `def` extracts lies under `pos`, rich enough.
pub open spec fn deposit_at(
    def: BuildingDef,
    resource_map: &ResourceMap,
    config: TerrainConfig,
    pos: Point3,
) -> bool {
    match resource_map.resource_at(pos.x as int, pos.z as int, config.map_size as int) {
        Some(cell) => def.extracts_from == Some(cell.resource) && cell.richness > MIN_RICHNESS,
        None => false,
    }
}

/// Whether building `b` extracts what `def` extracts and stands closer to
/// `pos` than the reach of `def`.
pub open spec fn claims(
    b: (Point3, usize),
    def: BuildingDef,
    defs: Seq<BuildingDef>,
    pos: Point3,
) -> bool {
    defs[b.1 as int].extracts_from == def.extracts_from && def.extraction_radius > 0 && dist_sq3(
        b.0,
        pos,
    ) < def.extraction_radius * def.extraction_radius
}

/// Whether any of `buildings` claims the deposit at `pos`.
pub open spec fn claimed(
    def: BuildingDef,
    buildings: Seq<(Point3, usize)>,
    defs: Seq<BuildingDef>,
    pos: Point3,
) -> bool {
    exists|i: int| 0 <= i < buildings.len() && claims(#[trigger] buildings[i], def, defs, pos)
}

/// Whether sample `j` of segment `s` lies on a deposit for `def`.
pub open spec fn deposit_on_road(
    def: BuildingDef,
    v: NetworkView,
    resource_map: &ResourceMap,
    config: TerrainConfig,
    s: u32,
    j: int,
) -> bool {
    v.has_ends(s) && 0 <= j < road_samples(v, s).len() && deposit_at(
        def,
        resource_map,
        config,
        road_samples(v, s)[j],
    )
}

/// Whether a producer of kind `def` can be built: it extracts a resource,
/// and some road runs over a deposit of it that no extractor has claimed.
pub open spec fn producer_viability(
    def: BuildingDef,
    v: NetworkView,
    resource_map: &ResourceMap,
    config: TerrainConfig,
    buildings: Seq<(Point3, usize)>,
    defs: Seq<BuildingDef>,
) -> Viability {
    if def.extracts_from is None {
        Viability::NoExtractionResource
    } else if exists|s: u32, j: int| #[trigger]
        deposit_on_road(def, v, resource_map, config, s, j) && !claimed(
            def,
            buildings,
            defs,
            road_samples(v, s)[j],
        ) {
        Viability::Viable
    } else if exists|s: u32, j: int| #[trigger] deposit_on_road(def, v, resource_map, config, s, j) {
        Viability::ExtractorNearby
    } else {
        Viability::NoResourceOnRoad
    }
}

/// Whether two optional resources are the same.
fn same_extraction(a: Option<ResourceType>, b: Option<ResourceType>) -> (r: bool)
    ensures
        r == (a == b),
{
    match (a, b) {
        (Some(x), Some(y)) => same_resource(x, y),
        (None, None) => true,
        _ => false,
    }
}

/// Whether any building claims the deposit at `pos`.
fn is_claimed(
    def: &BuildingDef,
    buildings: &[(Point3, usize)],
    defs: &[BuildingDef],
    pos: Point3,
) -> (r: bool)
    requires
        forall|i: int| 0 <= i < buildings.len() ==> (#[trigger] buildings[i]).1 < defs.len(),
    ensures
        r == claimed(*def, buildings@, defs@, pos),
{
    if def.extraction_radius <= 0 {
        return false;
    }
    proof {
        lemma_square_bound(def.extraction_radius as int);
    }
    let radius_sq: i128 = (def.extraction_radius as i128) * (def.extraction_radius as i128);
    let mut i: usize = 0;
    while i < buildings.len()
        invariant
            i <= buildings.len(),
            def.extraction_radius > 0,
            radius_sq == def.extraction_radius * def.extraction_radius,
            forall|k: int| 0 <= k < buildings.len() ==> (#[trigger] buildings[k]).1 < defs.len(),
            forall|k: int| 0 <= k < i ==> !claims(#[trigger] buildings@[k], *def, defs@, pos),
        decreases buildings.len() - i,
    {
        let (position, def_index) = buildings[i];
        if same_extraction(defs[def_index].extracts_from, def.extracts_from)
            && position.distance_squared(&pos) < radius_sq {
            assert(claims(buildings@[i as int], *def, defs@, pos));
            return true;
        }
        i += 1;
    }
    false
}

/// Whether a producer of kind `def` can be built now.
pub fn is_producer_viable(
    def: &BuildingDef,
    road_network: &RoadNetwork,
    resource_map: &ResourceMap,
    config: &TerrainConfig,
    existing_buildings: &[(Point3, usize)],
    defs: &[BuildingDef],
) -> (r: Viability)
    requires
        resource_map.wf(),
        config.map_size > 0,
        forall|i: int|
            0 <= i < existing_buildings.len() ==> (#[trigger] existing_buildings[i]).1
                < defs.len(),
    ensures
        r == producer_viability(
            *def,
            road_network@,
            resource_map,
            *config,
            existing_buildings@,
            defs@,
        ),
{
    let extracted = match def.extracts_from {
        Some(resource) => resource,
        None => {
            return Viability::NoExtractionResource;
        },
    };
    let ghost v = road_network@;
    let ids = road_network.segment_ids();
    let mut found = false;
    proof {
        use_type_invariant(road_network);
    }
    let mut k: usize = 0;
    while k < ids.len()
        invariant
            k <= ids.len(),
            v == road_network@,
            v.wf(),
            resource_map.wf(),
            config.map_size > 0,
            def.extracts_from == Some(extracted),
            ids@ == v.segment_ids(),
            forall|i: int|
                0 <= i < existing_buildings.len() ==> (#[trigger] existing_buildings[i]).1
                    < defs.len(),
            forall|m: int, j: int|
                0 <= m < k && #[trigger] deposit_on_road(
                    *def,
                    v,
                    resource_map,
                    *config,
                    ids@[m].0,
                    j,
                ) ==> claimed(*def, existing_buildings@, defs@, road_samples(v, ids@[m].0)[j]),
            found <==> exists|m: int, j: int|
                0 <= m < k && #[trigger] deposit_on_road(
                    *def,
                    v,
                    resource_map,
                    *config,
                    ids@[m].0,
                    j,
                ),
        decreases ids.len() - k,
    {
        let id = ids[k];
        if let Some(path) = road_network.segment_path(id) {
            let samples = sample_catmull_rom(path.as_slice(), CURVE_SAMPLES);
            let ghost found_before = found;
            let mut j: usize = 0;
            while j < samples.len()
                invariant
                    j <= samples.len(),
                    k < ids.len(),
                    id == ids@[k as int],
                    v == road_network@,
                    resource_map.wf(),
                    config.map_size > 0,
                    def.extracts_from == Some(extracted),
                    v.has_ends(id.0),
                    samples@ == road_samples(v, id.0),
                    forall|i: int|
                        0 <= i < existing_buildings.len() ==> (#[trigger] existing_buildings[i]).1
                            < defs.len(),
                    forall|i: int|
                        0 <= i < j && #[trigger] deposit_on_road(
                            *def,
                            v,
                            resource_map,
                            *config,
                            id.0,
                            i,
                        ) ==> claimed(*def, existing_buildings@, defs@, samples@[i]),
                    found <==> found_before || exists|i: int|
                        0 <= i < j && #[trigger] deposit_on_road(
                            *def,
                            v,
                            resource_map,
                            *config,
                            id.0,
                            i,
                        ),
                decreases samples.len() - j,
            {
                let pos = samples[j];
                let deposit = match resource_map.sample_world(pos.x, pos.z, config.map_size) {
                    Some(cell) => same_resource(cell.resource, extracted) && cell.richness
                        > MIN_RICHNESS,
                    None => false,
                };
                assert(deposit == deposit_on_road(
                    *def,
                    v,
                    resource_map,
                    *config,
                    id.0,
                    j as int,
                ));
                if deposit {
                    found = true;
                    if !is_claimed(def, existing_buildings, defs, pos) {
                        return Viability::Viable;
                    }
                }
                j += 1;
            }
            proof {
                assert forall|m: int, j: int|
                    0 <= m < k + 1 && #[trigger] deposit_on_road(
                        *def,
                        v,
                        resource_map,
                        *config,
                        ids@[m].0,
                        j,
                    ) implies claimed(
                    *def,
                    existing_buildings@,
                    defs@,
                    road_samples(v, ids@[m].0)[j],
                ) by {
                    if m == k {
                        assert(deposit_on_road(*def, v, resource_map, *config, id.0, j));
                    }
                }
            }
        } else {
            assert(!v.has_ends(id.0));
        }
        k += 1;
    }
    proof {
        lemma_ids_below(v.segments, v.next_segment_id as nat);
        assert forall|s: u32, j: int| #[trigger]
            deposit_on_road(*def, v, resource_map, *config, s, j) implies ids@.contains(
            SegmentId(s),
        ) by {
            assert(v.segments.contains_key(s));
        }
        assert forall|s: u32, j: int| #[trigger]
            deposit_on_road(*def, v, resource_map, *config, s, j) implies claimed(
            *def,
            existing_buildings@,
            defs@,
            road_samples(v, s)[j],
        ) by {
            assert(ids@.contains(SegmentId(s)));
            let m = choose|m: int| 0 <= m < ids@.len() && ids@[m] == SegmentId(s);
            assert(deposit_on_road(*def, v, resource_map, *config, ids@[m].0, j));
        }
        if exists|s: u32, j: int| #[trigger] deposit_on_road(*def, v, resource_map, *config, s, j) {
            let (s, j) = choose|s: u32, j: int| #[trigger]
                deposit_on_road(*def, v, resource_map, *config, s, j);
            let m = choose|m: int| 0 <= m < ids@.len() && ids@[m] == SegmentId(s);
            assert(deposit_on_road(*def, v, resource_map, *config, ids@[m].0, j));
            assert(found);
        }
    }
    if found {
        Viability::ExtractorNearby
    } else {
        Viability::NoResourceOnRoad
    }
}

/// Counts down to the next decision on what to build.
#[derive(Clone, Copy, Debug, PartialEq, Eq, Structural)]
pub struct SpawnTimer {
    /// Game time gathered since the last decision, in milliseconds.
    pub accumulator: i64,
    /// Game time between decisions, in milliseconds.
    pub interval: i64,
}

impl Default for SpawnTimer {
    fn default() -> (r: Self)
        ensures
            r == (SpawnTimer { accumulator: 0, interval: 2000 }),
    {
        SpawnTimer { accumulator: 0, interval: 2000 }
    }
}

/// The nearest 64-bit value to `v`.
pub open spec fn clamp_i64(v: int) -> i64 {
    if v < i64::MIN {
        i64::MIN
    } else if v > i64::MAX {
        i64::MAX
    } else {
        v as i64
    }
}

fn saturate_i64(v: i128) -> (r: i64)
    ensures
        r == clamp_i64(v as int),
{
    if v < i64::MIN as i128 {
        i64::MIN
    } else if v > i64::MAX as i128 {
        i64::MAX
    } else {
        v as i64
    }
}

impl SpawnTimer {
    /// Whether `dt` more milliseconds bring the timer to its interval.
    pub open spec fn due(self, dt: int) -> bool {
        clamp_i64(self.accumulator + dt) >= self.interval
    }

    /// The timer after `dt` more milliseconds: the time is gathered, and
    /// one interval is taken off when it is reached.
    pub open spec fn after(self, dt: int) -> SpawnTimer {
        let gathered = clamp_i64(self.accumulator + dt);
        SpawnTimer {
            accumulator: if gathered >= self.interval {
                clamp_i64(gathered - self.interval)
            } else {
                gathered
            },
            interval: self.interval,
        }
    }

    /// Gathers `dt` milliseconds of game time and says whether a decision
    /// is due.
    pub fn tick(&mut self, dt: i64) -> (due: bool)
        ensures
            due == old(self).due(dt as int),
            *final(self) == old(self).after(dt as int),
    {
        let gathered = saturate_i64(self.accumulator as i128 + dt as i128);
        if gathered < self.interval {
            self.accumulator = gathered;
            false
        } else {
            self.accumulator = saturate_i64(gathered as i128 - self.interval as i128);
            true
        }
    }
}

/// A building to be built.
#[derive(Clone, Copy, Debug, PartialEq, Eq, Structural)]
pub struct Spawn {
    /// Its kind, as a place in the catalog.
    pub def_index: usize,
    /// Where it goes.
    pub candidate: Candidate,
    /// What the site scored.
    pub score: i128,
}

/// What the last decisions found, for display.
#[derive(Clone, Copy, Debug, PartialEq, Eq, Structural)]
pub struct EconomyDebug {
    pub workers_needed: u32,
    pub workers_provided: u32,
    pub producer: Viability,
    pub producer_candidates: usize,
    pub residential: Viability,
    pub residential_candidates: usize,
    pub last_spawn: Option<Spawn>,
    pub best_score: Option<i128>,
}

impl Default for EconomyDebug {
    fn default() -> (r: Self)
        ensures
            r == (EconomyDebug {
                workers_needed: 0,
                workers_provided: 0,
                producer: Viability::Unknown,
                producer_candidates: 0,
                residential: Viability::Unknown,
                residential_candidates: 0,
                last_spawn: None,
                best_score: None,
            }),
    {
        EconomyDebug {
            workers_needed: 0,
            workers_provided: 0,
            producer: Viability::Unknown,
            producer_candidates: 0,
            residential: Viability::Unknown,
            residential_candidates: 0,
            last_spawn: None,
            best_score: None,
        }
    }
}

impl EconomyDebug {
    /// With the viability of a category noted.
    pub open spec fn with_viability(self, category: BuildingCategory, v: Viability) -> EconomyDebug {
        match category {
            BuildingCategory::Producer => EconomyDebug { producer: v, ..self },
            BuildingCategory::Residential => EconomyDebug { residential: v, ..self },
        }
    }

    /// With the number of candidates of a category noted.
    pub open spec fn with_candidates(self, category: BuildingCategory, n: usize) -> EconomyDebug {
        match category {
            BuildingCategory::Producer => EconomyDebug { producer_candidates: n, ..self },
            BuildingCategory::Residential => EconomyDebug { residential_candidates: n, ..self },
        }
    }

    /// As at the start of a decision: nothing built, nothing counted.
    pub open spec fn cleared(self) -> EconomyDebug {
        EconomyDebug {
            last_spawn: None,
            best_score: None,
            producer_candidates: 0,
            residential_candidates: 0,
            ..self
        }
    }
}

/// The workers that `buildings` need in all.
pub open spec fn workers_needed(buildings: Seq<(Point3, usize)>, defs: Seq<BuildingDef>) -> nat
    decreases buildings.len(),
{
    if buildings.len() == 0 {
        0
    } else {
        workers_needed(buildings.drop_last(), defs)
            + defs[buildings.last().1 as int].workers_required as nat
    }
}

/// The workers that `buildings` house in all.
pub open spec fn workers_provided(buildings: Seq<(Point3, usize)>, defs: Seq<BuildingDef>) -> nat
    decreases buildings.len(),
{
    if buildings.len() == 0 {
        0
    } else {
        workers_provided(buildings.drop_last(), defs)
            + defs[buildings.last().1 as int].workers_provided as nat
    }
}

/// The nearest 32-bit count to `v`.
pub open spec fn clamp_u32(v: nat) -> u32 {
    if v > u32::MAX {
        u32::MAX
    } else {
        v as u32
    }
}

/// The settlement as a decision reads it.
pub struct Town<'a> {
    pub road_network: &'a RoadNetwork,
    pub heightmap: &'a Heightmap,
    pub config: &'a TerrainConfig,
    pub resource_map: &'a ResourceMap,
    /// The lots that stand.
    pub lots: &'a [Lot],
    /// The buildings that stand, each with its position and its place in
    /// the catalog.
    pub buildings: &'a [(Point3, usize)],
    /// The catalog.
    pub defs: &'a [BuildingDef],
}

impl<'a> Town<'a> {
    /// The parts fit: the network is consistent, the grids are square, the
    /// map has a size, the catalog holds the two kinds that are built, and
    /// every building is of a kind in the catalog.
    pub open spec fn wf(self) -> bool {
        &&& self.heightmap.wf()
        &&& self.resource_map.wf()
        &&& self.config.map_size > 0
        &&& self.defs.len() >= 2
        &&& forall|i: int|
            0 <= i < self.buildings.len() ==> (#[trigger] self.buildings[i]).1 < self.defs.len()
    }

    /// What a search for lots for kind `idx` reads.
    pub open spec fn survey(self, idx: int) -> Survey {
        Survey {
            half_extents: self.defs[idx].lot_half_extents,
            lots: self.lots@,
            network: self.road_network@,
            heights: *self.heightmap,
            config: *self.config,
        }
    }

    /// What a site scores for kind `idx`.
    pub open spec fn score(self, idx: int, c: Candidate) -> int {
        score_of(
            c,
            self.defs[idx],
            self.buildings@,
            self.defs@,
            self.heightmap,
            *self.config,
            self.resource_map,
        )
    }

    /// Whether candidate `i` is the best for kind `idx`.
    pub open spec fn best_at(self, idx: int, i: int) -> bool {
        is_best(
            i,
            self.survey(idx).candidates(),
            self.defs[idx],
            self.buildings@,
            self.defs@,
            self.heightmap,
            *self.config,
            self.resource_map,
        )
    }

    /// Whether kind `idx` can be built now: a producer as its deposits
    /// allow, a home while more workers are needed than are housed.
    pub open spec fn viability(self, idx: int) -> Viability {
        match self.defs[idx].category {
            BuildingCategory::Producer => producer_viability(
                self.defs[idx],
                self.road_network@,
                self.resource_map,
                *self.config,
                self.buildings@,
                self.defs@,
            ),
            BuildingCategory::Residential => if workers_needed(self.buildings@, self.defs@)
                > workers_provided(self.buildings@, self.defs@) {
                Viability::Viable
            } else {
                Viability::WorkersSatisfied
            },
        }
    }

    /// The best site for kind `idx`, if there is any site.
    pub open spec fn best(self, idx: int) -> Option<Spawn> {
        if exists|i: int| self.best_at(idx, i) {
            let i = choose|i: int| self.best_at(idx, i);
            let c = self.survey(idx).candidates()[i];
            Some(Spawn { def_index: idx as usize, candidate: c, score: self.score(idx, c) as i128 })
        } else {
            None
        }
    }

    /// The notes after kind `idx` has been looked at, and the building to
    /// be built if it is of this kind.
    pub open spec fn consider(self, debug: EconomyDebug, idx: int) -> (EconomyDebug, Option<Spawn>) {
        let category = self.defs[idx].category;
        let v = self.viability(idx);
        let noted = debug.with_viability(category, v);
        if v == Viability::Viable {
            let counted = noted.with_candidates(
                category,
                self.survey(idx).candidates().len() as usize,
            );
            match self.best(idx) {
                Some(spawn) => (
                    EconomyDebug {
                        best_score: Some(spawn.score),
                        last_spawn: Some(spawn),
                        ..counted
                    },
                    Some(spawn),
                ),
                None => (counted, None),
            }
        } else {
            (noted, None)
        }
    }

    /// One decision: the notes after it, and the building to be built, if
    /// any. Without roads nothing is built. Else the logging camp is looked
    /// at, and the worker cottage only if no camp is built.
    pub open spec fn evaluate(self, debug: EconomyDebug) -> (EconomyDebug, Option<Spawn>) {
        if self.road_network@.segments.dom() =~= Set::<u32>::empty() {
            (
                EconomyDebug {
                    producer: Viability::NoRoads,
                    residential: Viability::NoRoads,
                    ..debug.cleared()
                },
                None,
            )
        } else {
            let counted = EconomyDebug {
                workers_needed: clamp_u32(workers_needed(self.buildings@, self.defs@)),
                workers_provided: clamp_u32(workers_provided(self.buildings@, self.defs@)),
                ..debug.cleared()
            };
            let first = self.consider(counted, LOGGING_CAMP as int);
            if first.1 is Some {
                first
            } else {
                self.consider(first.0, WORKER_COTTAGE as int)
            }
        }
    }
}

/// Only one candidate is the best.
pub proof fn lemma_best_unique(town: Town, idx: int, i: int, j: int)
    requires
        town.best_at(idx, i),
        town.best_at(idx, j),
    ensures
        i == j,
{
    let c = town.survey(idx).candidates();
    if i < j {
        assert(town.score(idx, c[i]) < town.score(idx, c[j]));
        assert(town.score(idx, c[j]) <= town.score(idx, c[i]));
    } else if j < i {
        assert(town.score(idx, c[j]) < town.score(idx, c[i]));
        assert(town.score(idx, c[i]) <= town.score(idx, c[j]));
    }
}

/// Adds up the workers that the buildings need and house.
fn count_workers(buildings: &[(Point3, usize)], defs: &[BuildingDef]) -> (r: (u128, u128))
    requires
        forall|i: int| 0 <= i < buildings.len() ==> (#[trigger] buildings[i]).1 < defs.len(),
    ensures
        r.0 == workers_needed(buildings@, defs@),
        r.1 == workers_provided(buildings@, defs@),
{
    let mut needed: u128 = 0;
    let mut provided: u128 = 0;
    let mut i: usize = 0;
    while i < buildings.len()
        invariant
            i <= buildings.len(),
            forall|k: int| 0 <= k < buildings.len() ==> (#[trigger] buildings[k]).1 < defs.len(),
            needed == workers_needed(buildings@.take(i as int), defs@),
            provided == workers_provided(buildings@.take(i as int), defs@),
            needed <= i * 0x1_0000_0000,
            provided <= i * 0x1_0000_0000,
        decreases buildings.len() - i,
    {
        assert(buildings@.take(i + 1).drop_last() =~= buildings@.take(i as int));
        let def = &defs[buildings[i].1];
        needed = needed + def.workers_required as u128;
        provided = provided + def.workers_provided as u128;
        i += 1;
    }
    assert(buildings@.take(i as int) =~= buildings@);
    (needed, provided)
}

fn saturate_u32(v: u128) -> (r: u32)
    ensures
        r == clamp_u32(v as nat),
{
    if v > u32::MAX as u128 {
        u32::MAX
    } else {
        v as u32
    }
}

/// The best site for a building of kind `idx`, with what it scores: of the
/// lots along the roads where the building may stand, the one that scores
/// highest, and of several that do, the first found. None if there is no
/// such lot.
pub fn best_site(town: &Town, idx: usize) -> (r: Option<Spawn>)
    requires
        town.wf(),
        idx < town.defs.len(),
    ensures
        r == town.best(idx as int),
        r is Some <==> town.survey(idx as int).candidates().len() > 0,
{
    let def = &town.defs[idx];
    let candidates = find_candidates(
        def,
        town.road_network,
        town.heightmap,
        town.config,
        town.lots,
    );
    pick_best(town, idx, &candidates)
}

/// The best of the candidates for kind `idx`.
fn pick_best(town: &Town, idx: usize, candidates: &Vec<Candidate>) -> (r: Option<Spawn>)
    requires
        town.wf(),
        idx < town.defs.len(),
        candidates@ == town.survey(idx as int).candidates(),
    ensures
        r == town.best(idx as int),
        r is Some <==> candidates.len() > 0,
{
    let best = best_candidate(
        candidates.as_slice(),
        &town.defs[idx],
        town.buildings,
        town.defs,
        town.heightmap,
        town.config,
        town.resource_map,
    );
    match best {
        Some((i, score)) => {
            proof {
                assert(town.best_at(idx as int, i as int));
                let chosen = choose|k: int| town.best_at(idx as int, k);
                lemma_best_unique(*town, idx as int, i as int, chosen);
            }
            Some(Spawn { def_index: idx, candidate: candidates[i], score })
        },
        None => {
            proof {
                assert forall|k: int| !town.best_at(idx as int, k) by {}
            }
            None
        },
    }
}

/// Looks at one kind of building: notes whether it can be built and how
/// many sites there are, and picks the best site.
fn consider(town: &Town, idx: usize, workers: (u128, u128), debug: &mut EconomyDebug) -> (r: Option<
    Spawn,
>)
    requires
        town.wf(),
        idx < town.defs.len(),
        workers.0 == workers_needed(town.buildings@, town.defs@),
        workers.1 == workers_provided(town.buildings@, town.defs@),
    ensures
        (*final(debug), r) == town.consider(*old(debug), idx as int),
{
    let def = &town.defs[idx];
    let viability = match def.category {
        BuildingCategory::Producer => {
            let v = is_producer_viable(
                def,
                town.road_network,
                town.resource_map,
                town.config,
                town.buildings,
                town.defs,
            );
            debug.producer = v;
            v
        },
        BuildingCategory::Residential => {
            let v = if workers.0 > workers.1 {
                Viability::Viable
            } else {
                Viability::WorkersSatisfied
            };
            debug.residential = v;
            v
        },
    };
    if !viability.is_viable() {
        return None;
    }
    let candidates = find_candidates(
        def,
        town.road_network,
        town.heightmap,
        town.config,
        town.lots,
    );
    match def.category {
        BuildingCategory::Producer => {
            debug.producer_candidates = candidates.len();
        },
        BuildingCategory::Residential => {
            debug.residential_candidates = candidates.len();
        },
    }
    let best = pick_best(town, idx, &candidates);
    if let Some(spawn) = best {
        debug.best_score = Some(spawn.score);
        debug.last_spawn = Some(spawn);
    }
    best
}

/// One tick of the economy: gathers `dt` milliseconds of game time, and
/// when a decision is due, decides what to build, if anything, and where.
/// One building at most is built per decision, a producer before a home.
pub fn evaluate_and_spawn(
    dt: i64,
    spawn_timer: &mut SpawnTimer,
    town: &Town,
    debug: &mut EconomyDebug,
) -> (spawn: Option<Spawn>)
    requires
        town.wf(),
    ensures
        *final(spawn_timer) == old(spawn_timer).after(dt as int),
        (*final(debug), spawn) == (if old(spawn_timer).due(dt as int) {
            town.evaluate(*old(debug))
        } else {
            (*old(debug), None)
        }),
{
    if !spawn_timer.tick(dt) {
        return None;
    }
    debug.last_spawn = None;
    debug.best_score = None;
    debug.producer_candidates = 0;
    debug.residential_candidates = 0;
    if town.road_network.segment_count() == 0 {
        debug.producer = Viability::NoRoads;
        debug.residential = Viability::NoRoads;
        return None;
    }
    let workers = count_workers(town.buildings, town.defs);
    debug.workers_needed = saturate_u32(workers.0);
    debug.workers_provided = saturate_u32(workers.1);
    let first = consider(town, LOGGING_CAMP, workers, debug);
    if first.is_some() {
        return first;
    }
    consider(town, WORKER_COTTAGE, workers, debug)
}

/// The buildings counted by category, and the workers they need and house.
#[derive(Clone, Copy, Debug, PartialEq, Eq, Structural)]
pub struct Census {
    pub producers: u32,
    pub residential: u32,
    /// Workers that the producers need.
    pub workers_needed: u32,
    /// Workers that the homes house.
    pub workers_provided: u32,
}

/// How many of `buildings` are of category `category`.
pub open spec fn count_of(
    buildings: Seq<(Point3, usize)>,
    defs: Seq<BuildingDef>,
    category: BuildingCategory,
) -> nat
    decreases buildings.len(),
{
    if buildings.len() == 0 {
        0
    } else {
        count_of(buildings.drop_last(), defs, category) + (if defs[buildings.last().1 as int].category
            == category {
            1nat
        } else {
            0nat
        })
    }
}

/// The workers that the producers among `buildings` need.
pub open spec fn producers_need(buildings: Seq<(Point3, usize)>, defs: Seq<BuildingDef>) -> nat
    decreases buildings.len(),
{
    if buildings.len() == 0 {
        0
    } else {
        producers_need(buildings.drop_last(), defs) + (if defs[buildings.last().1 as int].category
            == BuildingCategory::Producer {
            defs[buildings.last().1 as int].workers_required as nat
        } else {
            0nat
        })
    }
}

/// The workers that the homes among `buildings` house.
pub open spec fn homes_house(buildings: Seq<(Point3, usize)>, defs: Seq<BuildingDef>) -> nat
    decreases buildings.len(),
{
    if buildings.len() == 0 {
        0
    } else {
        homes_house(buildings.drop_last(), defs) + (if defs[buildings.last().1 as int].category
            == BuildingCategory::Residential {
            defs[buildings.last().1 as int].workers_provided as nat
        } else {
            0nat
        })
    }
}

/// Counts the buildings by category, with the workers that the producers
/// need and the homes house. Counts beyond what 32 bits hold stay there.
pub fn census(buildings: &[(Point3, usize)], defs: &[BuildingDef]) -> (c: Census)
    requires
        forall|i: int| 0 <= i < buildings.len() ==> (#[trigger] buildings[i]).1 < defs.len(),
    ensures
        c.producers == clamp_u32(count_of(buildings@, defs@, BuildingCategory::Producer)),
        c.residential == clamp_u32(count_of(buildings@, defs@, BuildingCategory::Residential)),
        c.workers_needed == clamp_u32(producers_need(buildings@, defs@)),
        c.workers_provided == clamp_u32(homes_house(buildings@, defs@)),
{
    let mut producers: u128 = 0;
    let mut residential: u128 = 0;
    let mut needed: u128 = 0;
    let mut provided: u128 = 0;
    let mut i: usize = 0;
    while i < buildings.len()
        invariant
            i <= buildings.len(),
            forall|k: int| 0 <= k < buildings.len() ==> (#[trigger] buildings[k]).1 < defs.len(),
            producers == count_of(buildings@.take(i as int), defs@, BuildingCategory::Producer),
            residential == count_of(
                buildings@.take(i as int),
                defs@,
                BuildingCategory::Residential,
            ),
            needed == producers_need(buildings@.take(i as int), defs@),
            provided == homes_house(buildings@.take(i as int), defs@),
            producers <= i,
            residential <= i,
            needed <= i * 0x1_0000_0000,
            provided <= i * 0x1_0000_0000,
        decreases buildings.len() - i,
    {
        assert(buildings@.take(i + 1).drop_last() =~= buildings@.take(i as int));
        let def = &defs[buildings[i].1];
        match def.category {
            BuildingCategory::Producer => {
                producers = producers + 1;
                needed = needed + def.workers_required as u128;
            },
            BuildingCategory::Residential => {
                residential = residential + 1;
                provided = provided + def.workers_provided as u128;
            },
        }
        i += 1;
    }
    assert(buildings@.take(i as int) =~= buildings@);
    Census {
        producers: saturate_u32(producers),
        residential: saturate_u32(residential),
        workers_needed: saturate_u32(needed),
        workers_provided: saturate_u32(provided),
    }
}

/// Whether building `i` is the nearest to `pos` strictly within `radius`:
/// none is nearer, and none before it is as near.
pub open spec fn is_nearest_building(
    buildings: Seq<(Point3, usize)>,
    i: int,
    pos: Point3,
    radius: i32,
) -> bool {
    &&& 0 <= i < buildings.len()
    &&& radius > 0
    &&& dist_sq3(buildings[i].0, pos) < radius * radius
    &&& forall|j: int|
        0 <= j < buildings.len() ==> dist_sq3(buildings[i].0, pos) <= dist_sq3(
            (#[trigger] buildings[j]).0,
            pos,
        )
    &&& forall|j: int|
        0 <= j < i ==> dist_sq3(buildings[i].0, pos) < dist_sq3((#[trigger] buildings[j]).0, pos)
}

/// The building nearest to `pos` and strictly within `radius` of it; of
/// several equally near, the first. None if there is no such building.
pub fn nearest_building(buildings: &[(Point3, usize)], pos: Point3, radius: i32) -> (r: Option<
    usize,
>)
    ensures
        match r {
            Some(i) => is_nearest_building(buildings@, i as int, pos, radius),
            None => forall|j: int|
                0 <= j < buildings.len() ==> radius <= 0 || dist_sq3(
                    (#[trigger] buildings[j]).0,
                    pos,
                ) >= radius * radius,
        },
{
    if radius <= 0 {
        return None;
    }
    proof {
        lemma_square_bound(radius as int);
    }
    let radius_sq: i128 = (radius as i128) * (radius as i128);
    let mut best: Option<(usize, i128)> = None;
    let mut i: usize = 0;
    while i < buildings.len()
        invariant
            i <= buildings.len(),
            radius > 0,
            radius_sq == radius * radius,
            match best {
                Some((b, d)) => {
                    &&& b < i
                    &&& d == dist_sq3(buildings[b as int].0, pos)
                    &&& d < radius_sq
                    &&& forall|j: int|
                        0 <= j < i ==> d <= dist_sq3((#[trigger] buildings[j]).0, pos)
                    &&& forall|j: int|
                        0 <= j < b ==> d < dist_sq3((#[trigger] buildings[j]).0, pos)
                },
                None => forall|j: int|
                    0 <= j < i ==> dist_sq3((#[trigger] buildings[j]).0, pos) >= radius_sq,
            },
        decreases buildings.len() - i,
    {
        let d = buildings[i].0.distance_squared(&pos);
        if d < radius_sq {
            let nearer = match best {
                Some((_, least)) => d < least,
                None => true,
            };
            if nearer {
                best = Some((i, d));
            }
        }
        i += 1;
    }
    match best {
        Some((b, _)) => Some(b),
        None => None,
    }
}

} // verus!
