//! A settlement that grows along the roads its player lays.
//!
//! The crate keeps the road network, a graph of nodes and curved segments
//! that is split wherever a new road crosses an old one; it searches the
//! roadsides for lots where a building may stand; and it ranks the lots it
//! finds, so that each decision builds on the best of them.
//!
//! All geometry is exact fixed-point arithmetic. A coordinate is an `i32`
//! count of steps, [`geometry::UNIT`] steps to one world unit; a direction is
//! a vector of that length; squares, products and quotients are taken in
//! 128 bits, and a quotient is rounded down. Every function states what it
//! returns over plain mathematical values, and is proved to return it.
//!
//! - [`geometry`]: points, distances, the integer square root.
//! - [`spline`]: Catmull-Rom curves through control points.
//! - [`road`]: the network and its editing.
//! - [`resolver`]: committing a road across the roads that are there.
//! - [`placement`]: the road tool's waypoints and inputs.
//! - [`terrain`], [`resources`]: the grids of elevation, biome and resource.
//! - [`lot`]: rotated rectangles, their corners and overlap.
//! - [`building`]: which lots may be placed, where they are, what they score.
//! - [`economy`]: the catalog of buildings and the decision what to build.
//! - [`mesh`]: the triangles of the terrain's and the roads' meshes.
//! - [`ui`]: game speed and messages.

pub mod building;
pub mod economy;
pub mod geometry;
pub mod lot;
pub mod mesh;
pub mod placement;
pub mod resolver;
pub mod resources;
pub mod road;
pub mod spline;
pub mod terrain;
pub mod ui;
