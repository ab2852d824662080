use vstd::prelude::*;

mod city;
pub use self::city::{City, saturate, workers_of, manpower_of, equipment_modifier, equipment_covers, equipment_of, equipment_least, lemma_covers_monotonic, lemma_equipment_unique,
    recruitable_of, law_manpower_recruitable, law_manpower_workers_excluded, law_manpower_monotonic};
mod grid;
pub use self::grid::{Adjacency, Direction, FACTION_UNCONTROLLED, Grid, Location, build_adjacencies, built_cost, rows_of, tiles_wf, direction_at, direction_index, neighbour, opposite, Reach, distance,
    law_distance, law_neighbour_opposite, law_units_one_to_one, law_place_remove};
mod terrain;
pub use self::terrain::Terrain;
mod tile;
pub use self::tile::{Tile, TileBuilder, CLIMB_MAX, modified_cost, tile_modifier_ok, tile_attribute_ok, is_tile_modifier,
    law_passage_symmetric, law_modifier_removed};

verus! {

/// The cost of moving onto an impassable tile.
pub const COST_IMPASSABLE: u8 = 0;
/// The least cost of moving onto a passable tile.
pub const COST_MINIMUM: u8 = 1;

/// The shape of an area of effect.
#[derive(Debug, Clone, Copy, PartialEq, Eq, Structural)]
pub enum Area {
    Single,
    /// radius
    Radial(u8),
    /// width
    Path(u8),
}

/// A search over the grid.
#[derive(Debug, Clone, Copy, PartialEq, Eq, Structural)]
pub enum Search {
    Single,
    /// range
    Radial(u8),
    /// width, range, direction
    Path(u8, u8, Direction),
}

} // verus!
