use vstd::prelude::*;
use super::{COST_IMPASSABLE, Search, Tile, TileBuilder};
use crate::collections::{DuplicateInnerMap, OuterJoinMap, find_key};
use crate::common::{ID, ID_UNINITIALISED, Scene, share_scene};
use crate::dynamic::{Appliable, AppliableBox, AppliableKind, Applier, Dynamic, Modifier};
use std::rc::Rc;

verus! {

/// A location on the grid: row, column.
pub type Location = (usize, usize);

/// The costs of moving from a tile to its neighbours, by direction.
pub type Adjacency = [u8; 4];

/// The faction of a location that no faction controls.
pub const FACTION_UNCONTROLLED: ID = ID_UNINITIALISED;

/// A direction on the grid.
#[derive(Debug, Clone, Copy, PartialEq, Eq, Structural)]
pub enum Direction {
    Up,
    Right,
    Left,
    Down,
    Length,
}

/// The position of a direction in an adjacency.
pub open spec fn direction_index(direction: Direction) -> int {
    match direction {
        Direction::Up => 0,
        Direction::Right => 1,
        Direction::Left => 2,
        Direction::Down => 3,
        Direction::Length => 4,
    }
}

/// The direction at a position of an adjacency.
pub open spec fn direction_at(index: int) -> Direction {
    if index == 0 {
        Direction::Up
    } else if index == 1 {
        Direction::Right
    } else if index == 2 {
        Direction::Left
    } else {
        Direction::Down
    }
}

/// The opposite direction.
pub open spec fn opposite(direction: Direction) -> Direction {
    match direction {
        Direction::Up => Direction::Down,
        Direction::Right => Direction::Left,
        Direction::Left => Direction::Right,
        Direction::Down => Direction::Up,
        Direction::Length => Direction::Length,
    }
}

/// The neighbour of `location` in `direction` on a grid of `rows` by `columns`, if it is on the grid.
pub open spec fn neighbour(rows: int, columns: int, location: Location, direction: Direction) -> Option<Location> {
    match direction {
        Direction::Up => if location.0 > 0 { Some(((location.0 - 1) as usize, location.1)) } else { None },
        Direction::Right => if location.1 + 1 < columns { Some((location.0, (location.1 + 1) as usize)) } else { None },
        Direction::Left => if location.1 > 0 { Some((location.0, (location.1 - 1) as usize)) } else { None },
        Direction::Down => if location.0 + 1 < rows { Some(((location.0 + 1) as usize, location.1)) } else { None },
        Direction::Length => None,
    }
}

/// The cost of moving from `location` in `direction` over `tiles`: impassable off the grid.
pub open spec fn built_cost(tiles: Seq<Seq<Tile>>, location: Location, direction: Direction) -> u8 {
    match neighbour(tiles.len() as int, tiles[0].len() as int, location, direction) {
        Some(n) => tiles[location.0 as int][location.1 as int].cost_to(&tiles[n.0 as int][n.1 as int]),
        None => COST_IMPASSABLE,
    }
}

/// The rows of a rectangle of vectors, as sequences.
pub open spec fn rows_of<T>(rows: Seq<Vec<T>>) -> Seq<Seq<T>> {
    rows.map_values(|row: Vec<T>| row@)
}

/// Whether `tiles` is a non-empty rectangle of well-formed tiles.
pub open spec fn tiles_wf(tiles: Seq<Seq<Tile>>) -> bool {
    &&& tiles.len() > 0
    &&& tiles[0].len() > 0
    &&& forall|i: int| 0 <= i < tiles.len() ==> (#[trigger] tiles[i]).len() == tiles[0].len()
    &&& forall|i: int, j: int| 0 <= i < tiles.len() && 0 <= j < tiles[0].len() ==> (#[trigger] tiles[i][j]).wf()
}

/// Whether `tile` is what `builder` builds in `scene`.
pub open spec fn built_from(tile: Tile, builder: TileBuilder, scene: Scene) -> bool {
    &&& tile.wf()
    &&& tile.scene() == scene
    &&& tile.terrain() == builder.terrain()
    &&& tile.height() == builder.height()
    &&& tile.city() == builder.city()
    &&& tile.modifier() == None::<Modifier>
    &&& tile.attribute() == None::<crate::dynamic::Attribute>
    &&& !tile.recruited()
    &&& tile.applier_modifier() == None::<ID>
    &&& tile.applier_attribute() == None::<ID>
}

/// The costs of moving out of each tile of `tiles` to its neighbours.
pub fn build_adjacencies(tiles: &Vec<Vec<Tile>>) -> (adjacencies: Vec<Vec<Adjacency>>)
    requires
        tiles_wf(rows_of(tiles@)),
    ensures
        adjacencies@.len() == tiles@.len(),
        forall|i: int| 0 <= i < tiles@.len() ==> (#[trigger] adjacencies@[i])@.len() == tiles@[0]@.len(),
        forall|i: int, j: int, k: int| 0 <= i < tiles@.len() && 0 <= j < tiles@[0]@.len() && 0 <= k < 4
            ==> (#[trigger] adjacencies@[i]@[j]@[k]) == built_cost(rows_of(tiles@), (i as usize, j as usize), direction_at(k)),
{
    let ghost rows: Seq<Seq<Tile>> = rows_of(tiles@);
    let height: usize = tiles.len();
    let width: usize = tiles[0].len();
    let mut adjacencies: Vec<Vec<Adjacency>> = Vec::new();
    let mut i: usize = 0;

    proof {
        assert(rows[0].len() == width);
    }
    while i < height
        invariant
            height == tiles@.len(),
            width == tiles@[0]@.len(),
            rows == rows_of(tiles@),
            tiles_wf(rows),
            i <= height,
            adjacencies@.len() == i,
            forall|r: int| 0 <= r < i ==> (#[trigger] adjacencies@[r])@.len() == width,
            forall|r: int, j: int, k: int| 0 <= r < i && 0 <= j < width && 0 <= k < 4
                ==> (#[trigger] adjacencies@[r]@[j]@[k]) == built_cost(rows, (r as usize, j as usize), direction_at(k)),
        decreases height - i,
    {
        let mut row: Vec<Adjacency> = Vec::new();
        let mut j: usize = 0;

        assert(rows[i as int].len() == width);
        while j < width
            invariant
                height == tiles@.len(),
                width == tiles@[0]@.len(),
                rows == rows_of(tiles@),
                tiles_wf(rows),
                i < height,
                j <= width,
                row@.len() == j,
                forall|c: int, k: int| 0 <= c < j && 0 <= k < 4
                    ==> (#[trigger] row@[c]@[k]) == built_cost(rows, (i, c as usize), direction_at(k)),
            decreases width - j,
        {
            assert(rows[i as int] == tiles@[i as int]@);
            let tile: &Tile = &tiles[i][j];
            let cost_up: u8 = if i > 0 {
                assert(rows[i - 1].len() == width);
                tile.find_cost(&tiles[i - 1][j])
            } else {
                COST_IMPASSABLE
            };
            let cost_right: u8 = if j + 1 < width {
                tile.find_cost(&tiles[i][j + 1])
            } else {
                COST_IMPASSABLE
            };
            let cost_left: u8 = if j > 0 {
                tile.find_cost(&tiles[i][j - 1])
            } else {
                COST_IMPASSABLE
            };
            let cost_down: u8 = if i + 1 < height {
                assert(rows[i + 1].len() == width);
                tile.find_cost(&tiles[i + 1][j])
            } else {
                COST_IMPASSABLE
            };
            let adjacency: Adjacency = [cost_up, cost_right, cost_left, cost_down];

            proof {
                assert(rows[i as int][j as int] == *tile);
                if i > 0 {
                    assert(rows[i - 1] == tiles@[i - 1]@);
                    assert(rows[i - 1][j as int] == tiles@[i - 1]@[j as int]);
                }
                if i + 1 < height {
                    assert(rows[i + 1] == tiles@[i + 1]@);
                    assert(rows[i + 1][j as int] == tiles@[i + 1]@[j as int]);
                }
                assert(adjacency@[0] == built_cost(rows, (i, j), direction_at(0)));
                assert(adjacency@[1] == built_cost(rows, (i, j), direction_at(1)));
                assert(adjacency@[2] == built_cost(rows, (i, j), direction_at(2)));
                assert(adjacency@[3] == built_cost(rows, (i, j), direction_at(3)));
            }
            row.push(adjacency);
            j += 1;
        }
        adjacencies.push(row);
        i += 1;
    }

    adjacencies
}

/// Where a walk from `start` along `path` ends.
pub open spec fn end_of(start: Location, path: Seq<Location>) -> Location {
    if path.len() == 0 {
        start
    } else {
        path.last()
    }
}

/// The opposite of a direction.
fn switch_direction(direction: Direction) -> (switched: Direction)
    ensures
        switched == opposite(direction),
{
    match direction {
        Direction::Up => Direction::Down,
        Direction::Right => Direction::Left,
        Direction::Left => Direction::Right,
        Direction::Down => Direction::Up,
        Direction::Length => Direction::Length,
    }
}

/// The position of a direction in an adjacency.
fn index_of(direction: Direction) -> (index: usize)
    requires
        direction != Direction::Length,
    ensures
        index == direction_index(direction),
        index < 4,
{
    match direction {
        Direction::Up => 0,
        Direction::Right => 1,
        Direction::Left => 2,
        Direction::Down => 3,
        Direction::Length => 4,
    }
}

/// Where a search over the grid may go.
#[derive(Debug, Clone, Copy, PartialEq, Eq, Structural)]
pub enum Reach {
    /// every location
    Anywhere,
    /// the locations that a faction controls
    Faction(ID),
    /// the locations without a city or a unit
    Unclaimed,
}

/// The map: a rectangle of tiles, the costs between them, and where units and factions stand.
#[derive(Debug)]
pub struct Grid {
    scene: Rc<Scene>,
    tiles: Vec<Vec<Tile>>,
    adjacencies: Vec<Vec<Adjacency>>,
    unit_locations: DuplicateInnerMap<ID, Location>,
    faction_locations: OuterJoinMap<ID, Location>,
    unit_id_passable: Option<ID>,
}

impl Grid {
    /// The scene of the map.
    pub closed spec fn scene(&self) -> Scene {
        *self.scene
    }

    /// The tiles, by row.
    pub closed spec fn tiles(&self) -> Seq<Seq<Tile>> {
        rows_of(self.tiles@)
    }

    /// The costs of moving out of each tile, by row.
    pub closed spec fn adjacencies(&self) -> Seq<Seq<Adjacency>> {
        rows_of(self.adjacencies@)
    }

    /// Where each unit stands.
    pub closed spec fn unit_locations(&self) -> Map<ID, Location> {
        self.unit_locations.first_map()
    }

    /// The unit on each occupied location.
    pub closed spec fn location_units(&self) -> Map<Location, ID> {
        self.unit_locations.second_map()
    }

    /// The factions that have controlled a location.
    pub closed spec fn factions(&self) -> Set<ID> {
        self.faction_locations.firsts()
    }

    /// The faction controlling each location.
    pub closed spec fn location_factions(&self) -> Map<Location, ID> {
        self.faction_locations.owners()
    }

    /// The unit whose own location counts as free.
    pub closed spec fn passable(&self) -> Option<ID> {
        self.unit_id_passable
    }

    /// The number of rows.
    pub open spec fn rows(&self) -> int {
        self.tiles().len() as int
    }

    /// The number of columns.
    pub open spec fn columns(&self) -> int {
        self.tiles()[0].len() as int
    }

    /// Whether `location` is on the grid.
    pub open spec fn in_bounds(&self, location: Location) -> bool {
        location.0 < self.rows() && location.1 < self.columns()
    }

    /// The tile at `location`.
    pub open spec fn tile(&self, location: Location) -> Tile {
        self.tiles()[location.0 as int][location.1 as int]
    }

    /// The cost of moving out of `location` in `direction`.
    pub open spec fn cost(&self, location: Location, direction: Direction) -> u8 {
        self.adjacencies()[location.0 as int][location.1 as int]@[direction_index(direction)]
    }

    /// The neighbour of `location` in `direction`, if it is on the grid.
    pub open spec fn next(&self, location: Location, direction: Direction) -> Option<Location> {
        neighbour(self.rows(), self.columns(), location, direction)
    }

    /// Whether a unit other than `passable` stands on `location`.
    pub open spec fn occupied_as(&self, location: Location, passable: Option<ID>) -> bool {
        self.location_units().contains_key(location) && passable != Some(self.location_units()[location])
    }

    /// Whether a unit may stand on `location` when `passable` counts as absent.
    pub open spec fn placeable_as(&self, location: Location, passable: Option<ID>) -> bool {
        !self.tile(location).impassable() && !self.occupied_as(location, passable)
    }

    /// The move out of `location` in `direction` when `passable` counts as absent: the location
    /// reached and its cost, if the way is passable and the location reached is placeable.
    pub open spec fn step_as(&self, location: Location, direction: Direction, passable: Option<ID>) -> Option<(Location, u8)> {
        let cost = self.cost(location, direction);
        if cost > COST_IMPASSABLE {
            match self.next(location, direction) {
                Some(n) => if self.placeable_as(n, passable) { Some((n, cost)) } else { None },
                None => None,
            }
        } else {
            None
        }
    }

    /// Whether another unit than the passable one stands on `location`.
    pub open spec fn occupied(&self, location: Location) -> bool {
        self.occupied_as(location, self.passable())
    }

    /// Whether a unit may stand on `location`.
    pub open spec fn placeable(&self, location: Location) -> bool {
        self.placeable_as(location, self.passable())
    }

    /// The move out of `location` in `direction`.
    pub open spec fn step(&self, location: Location, direction: Direction) -> Option<(Location, u8)> {
        self.step_as(location, direction, self.passable())
    }

    /// The walk from `start` along `moves` when `passable` counts as absent: the locations
    /// reached, and whether every move succeeded. The walk stops at the first move that fails.
    pub open spec fn walk(&self, start: Location, moves: Seq<Direction>, passable: Option<ID>) -> (Seq<Location>, bool)
        decreases moves.len(),
    {
        if moves.len() == 0 {
            (Seq::<Location>::empty(), true)
        } else {
            let (path, is_complete) = self.walk(start, moves.drop_last(), passable);
            if !is_complete {
                (path, false)
            } else {
                match self.step_as(end_of(start, path), moves.last(), passable) {
                    Some((n, _)) => (path.push(n), true),
                    None => (path, false),
                }
            }
        }
    }

    /// The faction of the unit builder `unit_id`.
    pub open spec fn unit_faction(&self, unit_id: ID) -> ID {
        self.scene().unit_builders()[unit_id as int].faction()
    }

    /// Whether the map is a non-empty rectangle of well-formed tiles of its scene, with an
    /// adjacency for each tile.
    pub open spec fn ground_wf(&self) -> bool {
        &&& self.scene().wf()
        &&& 0 < self.rows() <= isize::MAX
        &&& 0 < self.columns() <= isize::MAX
        &&& forall|i: int| 0 <= i < self.rows() ==> (#[trigger] self.tiles()[i]).len() == self.columns()
        &&& self.adjacencies().len() == self.rows()
        &&& forall|i: int| 0 <= i < self.rows() ==> (#[trigger] self.adjacencies()[i]).len() == self.columns()
        &&& forall|i: int, j: int| 0 <= i < self.rows() && 0 <= j < self.columns() ==> {
            &&& (#[trigger] self.tiles()[i][j]).wf()
            &&& self.tiles()[i][j].scene() == self.scene()
        }
    }

    /// Whether the units are units of the scene on the grid, one per location.
    pub open spec fn units_wf(&self) -> bool {
        &&& forall|u: ID| #[trigger] self.unit_locations().contains_key(u) ==> {
            &&& self.in_bounds(self.unit_locations()[u])
            &&& u < self.scene().unit_builders().len()
            &&& self.location_units().contains_key(self.unit_locations()[u])
            &&& self.location_units()[self.unit_locations()[u]] == u
        }
        &&& forall|l: Location| #[trigger] self.location_units().contains_key(l) ==> {
            &&& self.unit_locations().contains_key(self.location_units()[l])
            &&& self.unit_locations()[self.location_units()[l]] == l
        }
    }

    /// Whether every location has a faction.
    pub open spec fn factions_wf(&self) -> bool {
        forall|l: Location| self.in_bounds(l) ==> #[trigger] self.location_factions().contains_key(l)
    }

    /// Whether the map is consistent: its ground, its units and its factions.
    pub open spec fn wf(&self) -> bool {
        &&& self.ground_wf()
        &&& self.units_wf()
        &&& self.factions_wf()
    }

    /// The units stay consistent when `unit_id` is placed on a free location of the grid.
    proof fn lemma_units_insert(&self, other: &Grid, unit_id: ID, location: Location)
        requires
            self.ground_wf(),
            self.units_wf(),
            other.scene() == self.scene(),
            other.tiles() == self.tiles(),
            self.in_bounds(location),
            unit_id < self.scene().unit_builders().len(),
            !self.unit_locations().contains_key(unit_id),
            !self.location_units().contains_key(location),
            other.unit_locations() == self.unit_locations().insert(unit_id, location),
            other.location_units() == self.location_units().insert(location, unit_id),
        ensures
            other.units_wf(),
    {
        assert forall|u: ID| #[trigger] other.unit_locations().contains_key(u) implies {
            &&& other.in_bounds(other.unit_locations()[u])
            &&& u < other.scene().unit_builders().len()
            &&& other.location_units().contains_key(other.unit_locations()[u])
            &&& other.location_units()[other.unit_locations()[u]] == u
        } by {
            if u != unit_id {
                assert(self.unit_locations().contains_key(u));
            }
        }
        assert forall|l: Location| #[trigger] other.location_units().contains_key(l) implies {
            &&& other.unit_locations().contains_key(other.location_units()[l])
            &&& other.unit_locations()[other.location_units()[l]] == l
        } by {
            if l != location {
                assert(self.location_units().contains_key(l));
                assert(self.unit_locations().contains_key(self.location_units()[l]));
            }
        }
    }

    /// The units stay consistent when `unit_id` leaves the grid.
    proof fn lemma_units_remove(&self, other: &Grid, unit_id: ID)
        requires
            self.ground_wf(),
            self.units_wf(),
            other.scene() == self.scene(),
            other.tiles() == self.tiles(),
            other.unit_locations() == self.unit_locations().remove(unit_id),
            other.location_units() == if self.unit_locations().contains_key(unit_id) {
                self.location_units().remove(self.unit_locations()[unit_id])
            } else {
                self.location_units()
            },
        ensures
            other.units_wf(),
    {
        assert forall|u: ID| #[trigger] other.unit_locations().contains_key(u) implies {
            &&& other.in_bounds(other.unit_locations()[u])
            &&& u < other.scene().unit_builders().len()
            &&& other.location_units().contains_key(other.unit_locations()[u])
            &&& other.location_units()[other.unit_locations()[u]] == u
        } by {
            assert(self.unit_locations().contains_key(u));
        }
        assert forall|l: Location| #[trigger] other.location_units().contains_key(l) implies {
            &&& other.unit_locations().contains_key(other.location_units()[l])
            &&& other.unit_locations()[other.location_units()[l]] == l
        } by {
            assert(self.location_units().contains_key(l));
            assert(self.unit_locations().contains_key(self.location_units()[l]));
        }
    }

    /// The units stay consistent when neither they nor the ground change.
    proof fn lemma_units_frame(&self, other: &Grid)
        requires
            self.ground_wf(),
            self.units_wf(),
            other.scene() == self.scene(),
            other.tiles() == self.tiles(),
            other.unit_locations() == self.unit_locations(),
            other.location_units() == self.location_units(),
        ensures
            other.units_wf(),
    {
        assert forall|u: ID| #[trigger] other.unit_locations().contains_key(u) implies {
            &&& other.in_bounds(other.unit_locations()[u])
            &&& u < other.scene().unit_builders().len()
            &&& other.location_units().contains_key(other.unit_locations()[u])
            &&& other.location_units()[other.unit_locations()[u]] == u
        } by {
            assert(self.unit_locations().contains_key(u));
        }
    }

    /// The ground and the factions stay consistent when neither changes.
    proof fn lemma_ground_factions_frame(&self, other: &Grid)
        requires
            self.ground_wf(),
            self.factions_wf(),
            self.same_ground(other),
            other.location_factions() == self.location_factions(),
        ensures
            other.ground_wf(),
            other.factions_wf(),
    {
        assert forall|l: Location| other.in_bounds(l) implies #[trigger] other.location_factions().contains_key(l) by {
            assert(self.in_bounds(l));
        }
    }

    /// The factions stay consistent when a location of the grid changes hands.
    proof fn lemma_factions_insert(&self, other: &Grid, location: Location, faction_id: ID)
        requires
            self.factions_wf(),
            other.tiles() == self.tiles(),
            other.location_factions() == self.location_factions().insert(location, faction_id),
        ensures
            other.factions_wf(),
    {
        assert forall|l: Location| other.in_bounds(l) implies #[trigger] other.location_factions().contains_key(l) by {
            assert(self.in_bounds(l));
        }
    }

    /// Whether every location of the grid, and only those, has a faction.
    pub open spec fn factions_cover(&self) -> bool {
        forall|l: Location| #[trigger] self.location_factions().contains_key(l) <==> self.in_bounds(l)
    }

    /// Creates the map of `scene`: its tiles built, their costs found, no unit placed and no
    /// location controlled.
    pub fn new(scene: Rc<Scene>) -> (grid: Self)
        requires
            scene.wf(),
            scene.tile_builders().len() <= isize::MAX,
            scene.tile_builders()[0].len() <= isize::MAX,
        ensures
            grid.wf(),
            grid.scene() == *scene,
            grid.rows() == scene.tile_builders().len(),
            grid.columns() == scene.tile_builders()[0].len(),
            forall|i: int, j: int| 0 <= i < grid.rows() && 0 <= j < grid.columns()
                ==> built_from(#[trigger] grid.tiles()[i][j], scene.tile_builders()[i][j], *scene),
            forall|l: Location, d: Direction| grid.in_bounds(l) && d != Direction::Length
                ==> #[trigger] grid.cost(l, d) == built_cost(grid.tiles(), l, d),
            grid.unit_locations() == Map::<ID, Location>::empty(),
            grid.location_units() == Map::<Location, ID>::empty(),
            grid.factions_cover(),
            forall|l: Location| grid.in_bounds(l) ==> #[trigger] grid.location_factions()[l] == FACTION_UNCONTROLLED,
            grid.factions() == set![FACTION_UNCONTROLLED],
            grid.passable() == None::<ID>,
    {
        let builders: &Vec<Vec<TileBuilder>> = scene.get_tile_builders();
        let ghost plan: Seq<Seq<TileBuilder>> = scene.tile_builders();
        let height: usize = builders.len();
        let width: usize = builders[0].len();
        let mut tiles: Vec<Vec<Tile>> = Vec::new();
        let mut i: usize = 0;

        proof {
            assert(plan[0] == builders@[0]@);
        }
        while i < height
            invariant
                scene.wf(),
                plan == scene.tile_builders(),
                rows_of(builders@) == plan,
                height == plan.len(),
                width == plan[0].len(),
                i <= height,
                tiles@.len() == i,
                forall|r: int| 0 <= r < i ==> (#[trigger] tiles@[r])@.len() == width,
                forall|r: int, c: int| 0 <= r < i && 0 <= c < width ==> built_from(#[trigger] tiles@[r]@[c], plan[r][c], *scene),
            decreases height - i,
        {
            let mut row: Vec<Tile> = Vec::new();
            let mut j: usize = 0;

            proof {
                assert(plan[i as int] == builders@[i as int]@);
                assert(plan[i as int].len() == width);
            }
            while j < width
                invariant
                    scene.wf(),
                    plan == scene.tile_builders(),
                    rows_of(builders@) == plan,
                    height == plan.len(),
                    width == plan[0].len(),
                    i < height,
                    plan[i as int] == builders@[i as int]@,
                    plan[i as int].len() == width,
                    j <= width,
                    row@.len() == j,
                    forall|c: int| 0 <= c < j ==> built_from(#[trigger] row@[c], plan[i as int][c], *scene),
                decreases width - j,
            {
                proof {
                    assert(plan[i as int][j as int].valid_in(*scene));
                }
                let tile: Tile = builders[i][j].build(share_scene(&scene));

                row.push(tile);
                j += 1;
            }
            tiles.push(row);
            i += 1;
        }

        proof {
            assert forall|r: int, c: int| 0 <= r < rows_of(tiles@).len() && 0 <= c < rows_of(tiles@)[0].len()
                implies (#[trigger] rows_of(tiles@)[r][c]).wf() by {
                assert(built_from(tiles@[r]@[c], plan[r][c], *scene));
            }
        }
        let adjacencies: Vec<Vec<Adjacency>> = build_adjacencies(&tiles);
        let mut faction_locations: OuterJoinMap<ID, Location> = OuterJoinMap::new();
        let mut i: usize = 0;

        while i < height
            invariant
                i <= height,
                forall|l: Location| #[trigger] faction_locations.owners().contains_key(l) <==> l.0 < i && l.1 < width,
                forall|l: Location| #[trigger] faction_locations.owners().contains_key(l) ==> faction_locations.owners()[l] == FACTION_UNCONTROLLED,
                faction_locations.firsts() == if i == 0 { Set::<ID>::empty() } else { set![FACTION_UNCONTROLLED] },
                width > 0,
            decreases height - i,
        {
            let mut j: usize = 0;

            while j < width
                invariant
                    i < height,
                    j <= width,
                    width > 0,
                    forall|l: Location| #[trigger] faction_locations.owners().contains_key(l) <==> l.0 < i && l.1 < width || l.0 == i && l.1 < j,
                    forall|l: Location| #[trigger] faction_locations.owners().contains_key(l) ==> faction_locations.owners()[l] == FACTION_UNCONTROLLED,
                    faction_locations.firsts() == if i == 0 && j == 0 { Set::<ID>::empty() } else { set![FACTION_UNCONTROLLED] },
                decreases width - j,
            {
                let is_inserted: bool = faction_locations.insert((FACTION_UNCONTROLLED, (i, j)));

                proof {
                    assert(faction_locations.firsts() =~= set![FACTION_UNCONTROLLED]);
                }
                j += 1;
            }
            i += 1;
        }

        let grid = Self {
            scene,
            tiles,
            adjacencies,
            unit_locations: DuplicateInnerMap::new(),
            faction_locations,
            unit_id_passable: None,
        };

        proof {
            assert(grid.tiles()[0] == tiles@[0]@);
            assert forall|r: int| 0 <= r < grid.rows() implies (#[trigger] grid.tiles()[r]).len() == grid.columns() by {
                assert(grid.tiles()[r] == tiles@[r]@);
            }
            assert forall|r: int| 0 <= r < grid.rows() implies (#[trigger] grid.adjacencies()[r]).len() == grid.columns() by {
                assert(grid.adjacencies()[r] == adjacencies@[r]@);
            }
            assert forall|r: int, c: int| 0 <= r < grid.rows() && 0 <= c < grid.columns()
                implies built_from(#[trigger] grid.tiles()[r][c], plan[r][c], *scene) by {
                assert(grid.tiles()[r] == tiles@[r]@);
            }
            assert forall|l: Location| grid.in_bounds(l) implies #[trigger] grid.location_factions()[l] == FACTION_UNCONTROLLED by {
                assert(faction_locations.owners().contains_key(l));
            }
            assert forall|l: Location, d: Direction| grid.in_bounds(l) && d != Direction::Length
                implies #[trigger] grid.cost(l, d) == built_cost(grid.tiles(), l, d) by {
                assert(grid.adjacencies()[l.0 as int] == adjacencies@[l.0 as int]@);
                assert(direction_at(direction_index(d)) == d);
                assert(adjacencies@[l.0 as int]@[l.1 as int]@[direction_index(d)]
                    == built_cost(rows_of(tiles@), (l.0, l.1), direction_at(direction_index(d))));
            }
        }
        grid
    }

    /// Gets the cost of moving out of `location` in `direction`.
    pub fn get_cost(&self, location: &Location, direction: Direction) -> (cost: u8)
        requires
            self.wf(),
            self.in_bounds(*location),
            direction != Direction::Length,
        ensures
            cost == self.cost(*location, direction),
    {
        proof {
            assert(self.adjacencies()[location.0 as int] == self.adjacencies@[location.0 as int]@);
        }
        self.adjacencies[location.0][location.1][index_of(direction)]
    }

    /// A tile of the grid of a well-formed map is well-formed and of its scene.
    proof fn lemma_tile(&self, location: Location)
        requires
            self.wf(),
            self.in_bounds(location),
        ensures
            self.tile(location).wf(),
            self.tile(location).scene() == self.scene(),
            self.tiles@[location.0 as int]@[location.1 as int] == self.tile(location),
            self.tiles@[location.0 as int]@.len() == self.columns(),
    {
        assert(self.tiles()[location.0 as int] == self.tiles@[location.0 as int]@);
    }

    /// Gets whether `location` lies on the map.
    pub fn is_in_bounds(&self, location: &Location) -> (is_in_bounds: bool)
        requires
            self.wf(),
        ensures
            is_in_bounds == self.in_bounds(*location),
    {
        proof {
            assert(self.tiles()[0] == self.tiles@[0]@);
        }
        location.0 < self.tiles.len() && location.1 < self.tiles[0].len()
    }

    /// Gets whether the tile at `location` cannot be entered.
    pub fn is_impassable(&self, location: &Location) -> (is_impassable: bool)
        requires
            self.wf(),
            self.in_bounds(*location),
        ensures
            is_impassable == self.tile(*location).impassable(),
    {
        proof {
            self.lemma_tile(*location);
        }
        self.tiles[location.0][location.1].is_impassable()
    }

    /// Gets the unit on `location`.
    pub fn get_location_unit(&self, location: &Location) -> (unit_id: Option<&ID>)
        requires
            self.wf(),
            self.in_bounds(*location),
        ensures
            match unit_id {
                Some(u) => self.location_units().contains_key(*location) && *u == self.location_units()[*location],
                None => !self.location_units().contains_key(*location),
            },
    {
        self.unit_locations.get_second(location)
    }

    /// Gets whether a unit other than the passable one stands on `location`.
    pub fn is_occupied(&self, location: &Location) -> (is_occupied: bool)
        requires
            self.wf(),
            self.in_bounds(*location),
        ensures
            is_occupied == self.occupied(*location),
    {
        match self.get_location_unit(location) {
            Some(u) => match self.unit_id_passable {
                Some(p) => *u != p,
                None => true,
            },
            None => false,
        }
    }

    /// Gets whether a unit may stand on `location`.
    pub fn is_placeable(&self, location: &Location) -> (is_placeable: bool)
        requires
            self.wf(),
            self.in_bounds(*location),
        ensures
            is_placeable == self.placeable(*location),
    {
        !self.is_impassable(location) && !self.is_occupied(location)
    }

    /// Gets the neighbour of `start` in `direction`, if it is on the grid.
    pub fn try_connect(&self, start: &Location, direction: Direction) -> (end: Option<Location>)
        requires
            self.wf(),
            self.in_bounds(*start),
            direction != Direction::Length,
        ensures
            end == self.next(*start, direction),
            end matches Some(e) ==> self.in_bounds(e),
    {
        proof {
            assert(self.adjacencies()[0] == self.adjacencies@[0]@);
        }
        let height: usize = self.adjacencies.len();
        let width: usize = self.adjacencies[0].len();

        match direction {
            Direction::Up => if start.0 > 0 { Some((start.0 - 1, start.1)) } else { None },
            Direction::Right => if start.1 + 1 < width { Some((start.0, start.1 + 1)) } else { None },
            Direction::Left => if start.1 > 0 { Some((start.0, start.1 - 1)) } else { None },
            Direction::Down => if start.0 + 1 < height { Some((start.0 + 1, start.1)) } else { None },
            Direction::Length => None,
        }
    }

    /// Gets the move out of `start` in `direction`: the location reached and its cost, if the
    /// way is passable and the location reached is placeable.
    pub fn try_move(&self, start: &Location, direction: Direction) -> (end: Option<(Location, u8)>)
        requires
            self.wf(),
            self.in_bounds(*start),
            direction != Direction::Length,
        ensures
            end == self.step(*start, direction),
            end matches Some(e) ==> self.in_bounds(e.0) && e.1 > COST_IMPASSABLE,
    {
        let cost: u8 = self.get_cost(start, direction);

        if cost > COST_IMPASSABLE {
            match self.try_connect(start, direction) {
                Some(end) => if self.is_placeable(&end) {
                    Some((end, cost))
                } else {
                    None
                },
                None => None,
            }
        } else {
            None
        }
    }

    /// Whether `other` has the scene, tiles and costs of this map.
    pub open spec fn same_ground(&self, other: &Grid) -> bool {
        &&& other.scene() == self.scene()
        &&& other.tiles() == self.tiles()
        &&& other.adjacencies() == self.adjacencies()
    }

    /// Whether `other` has the units of this map.
    pub open spec fn same_units(&self, other: &Grid) -> bool {
        &&& other.unit_locations() == self.unit_locations()
        &&& other.location_units() == self.location_units()
        &&& other.passable() == self.passable()
    }

    /// Whether `other` has the factions of this map.
    pub open spec fn same_factions(&self, other: &Grid) -> bool {
        &&& other.factions() == self.factions()
        &&& other.location_factions() == self.location_factions()
    }

    /// Well-formedness rests on the ground, the units and the controlled locations alone.
    proof fn lemma_wf_frame(&self, other: &Grid)
        requires
            self.wf(),
            other.scene() == self.scene(),
            other.tiles() == self.tiles(),
            other.adjacencies().len() == self.rows(),
            forall|i: int| 0 <= i < self.rows() ==> (#[trigger] other.adjacencies()[i]).len() == self.columns(),
            other.unit_locations() == self.unit_locations(),
            other.location_units() == self.location_units(),
            other.location_factions() == self.location_factions(),
        ensures
            other.wf(),
    {
        assert forall|u: ID| #[trigger] other.unit_locations().contains_key(u) implies {
            &&& other.in_bounds(other.unit_locations()[u])
            &&& u < other.scene().unit_builders().len()
            &&& other.location_units().contains_key(other.unit_locations()[u])
            &&& other.location_units()[other.unit_locations()[u]] == u
        } by {
            assert(self.unit_locations().contains_key(u));
        }
        assert forall|l: Location| #[trigger] other.location_units().contains_key(l) implies {
            &&& other.unit_locations().contains_key(other.location_units()[l])
            &&& other.unit_locations()[other.location_units()[l]] == l
        } by {
            assert(self.location_units().contains_key(l));
        }
        assert forall|l: Location| other.in_bounds(l) implies #[trigger] other.location_factions().contains_key(l) by {
            assert(self.in_bounds(l));
        }
    }

    /// Sets the cost of moving from the neighbour of `location` in `direction` back onto it.
    fn update_neighbour(&mut self, location: &Location, direction: Direction)
        requires
            old(self).wf(),
            old(self).in_bounds(*location),
            direction != Direction::Length,
        ensures
            final(self).wf(),
            final(self).scene() == old(self).scene(),
            final(self).tiles() == old(self).tiles(),
            old(self).same_units(final(self)),
            old(self).same_factions(final(self)),
            forall|l: Location, e: Direction| old(self).in_bounds(l) && e != Direction::Length ==> #[trigger] final(self).cost(l, e)
                == if old(self).next(*location, direction) == Some(l) && e == opposite(direction) {
                    old(self).tile(l).cost_to(&old(self).tile(*location))
                } else {
                    old(self).cost(l, e)
                },
    {
        match self.try_connect(location, direction) {
            Some(n) => {
                proof {
                    self.lemma_tile(n);
                    self.lemma_tile(*location);
                    assert(self.adjacencies()[n.0 as int] == self.adjacencies@[n.0 as int]@);
                }
                let cost: u8 = self.tiles[n.0][n.1].find_cost(&self.tiles[location.0][location.1]);
                let k: usize = index_of(switch_direction(direction));

                self.adjacencies[n.0][n.1][k] = cost;
                proof {
                    assert forall|i: int| 0 <= i < self.rows() implies (#[trigger] self.adjacencies()[i]).len() == self.columns() by {
                        assert(self.adjacencies()[i] == self.adjacencies@[i]@);
                        assert(old(self).adjacencies()[i] == old(self).adjacencies@[i]@);
                    }
                    old(self).lemma_wf_frame(self);
                    assert forall|l: Location, e: Direction| old(self).in_bounds(l) && e != Direction::Length implies #[trigger] self.cost(l, e)
                        == if old(self).next(*location, direction) == Some(l) && e == opposite(direction) {
                            old(self).tile(l).cost_to(&old(self).tile(*location))
                        } else {
                            old(self).cost(l, e)
                        } by {
                        assert(self.adjacencies()[l.0 as int] == self.adjacencies@[l.0 as int]@);
                        assert(old(self).adjacencies()[l.0 as int] == old(self).adjacencies@[l.0 as int]@);
                    }
                }
            },
            None => {},
        }
    }

    /// Sets the costs of moving from each neighbour of `location` onto it, as its tile now stands;
    /// the costs of moving out of it stay as they were.
    pub fn update_adjacency(&mut self, location: &Location)
        requires
            old(self).wf(),
            old(self).in_bounds(*location),
        ensures
            final(self).wf(),
            final(self).scene() == old(self).scene(),
            final(self).tiles() == old(self).tiles(),
            old(self).same_units(final(self)),
            old(self).same_factions(final(self)),
            forall|l: Location, e: Direction| old(self).in_bounds(l) && e != Direction::Length ==> #[trigger] final(self).cost(l, e)
                == if old(self).next(l, e) == Some(*location) {
                    old(self).tile(l).cost_to(&old(self).tile(*location))
                } else {
                    old(self).cost(l, e)
                },
    {
        self.update_neighbour(location, Direction::Up);
        self.update_neighbour(location, Direction::Right);
        self.update_neighbour(location, Direction::Left);
        self.update_neighbour(location, Direction::Down);
    }

    /// Gets where `unit_id` stands; the unit must stand on the map.
    pub fn get_unit_location(&self, unit_id: &ID) -> (location: &Location)
        requires
            self.unit_locations().contains_key(*unit_id),
        ensures
            *location == self.unit_locations()[*unit_id],
    {
        match self.unit_locations.get_first(unit_id) {
            Some(l) => l,
            None => unreached(),
        }
    }

    /// Gets the faction of the unit builder `unit_id`.
    fn get_unit_faction(&self, unit_id: &ID) -> (faction_id: ID)
        requires
            self.wf(),
            *unit_id < self.scene().unit_builders().len(),
        ensures
            faction_id == self.unit_faction(*unit_id),
    {
        self.scene.get_unit_builder(unit_id).get_faction_id()
    }

    /// Gets the faction controlling `location`.
    pub fn get_location_faction(&self, location: &Location) -> (faction_id: &ID)
        requires
            self.wf(),
            self.in_bounds(*location),
        ensures
            *faction_id == self.location_factions()[*location],
    {
        proof {
            assert(self.location_factions().contains_key(*location));
        }
        match self.faction_locations.get_second(location) {
            Some(f) => f,
            None => unreached(),
        }
    }

    /// Gets the locations that `faction_id` controls; `None` when it has never controlled any.
    pub fn get_faction_locations(&self, faction_id: &ID) -> (locations: Option<Vec<Location>>)
        ensures
            match locations {
                Some(l) => {
                    &&& self.factions().contains(*faction_id)
                    &&& l@.no_duplicates()
                    &&& forall|x: Location| #[trigger] l@.contains(x) <==> self.location_factions().contains_key(x)
                        && self.location_factions()[x] == *faction_id
                },
                None => !self.factions().contains(*faction_id),
            },
    {
        let locations: Option<Vec<Location>> = self.faction_locations.get_first(faction_id);

        proof {
            if locations is Some {
                let l = locations->Some_0;
                assert forall|x: Location| #[trigger] l@.contains(x) <==> self.location_factions().contains_key(x)
                    && self.location_factions()[x] == *faction_id by {
                    assert(l@.to_set().contains(x) == l@.contains(x));
                }
            }
        }
        locations
    }

    /// Sets the unit whose own location counts as free.
    pub fn set_unit_id_passable(&mut self, unit_id_passable: Option<ID>)
        requires
            old(self).wf(),
        ensures
            final(self).wf(),
            old(self).same_ground(final(self)),
            old(self).same_factions(final(self)),
            final(self).unit_locations() == old(self).unit_locations(),
            final(self).location_units() == old(self).location_units(),
            final(self).passable() == unit_id_passable,
    {
        self.unit_id_passable = unit_id_passable;
        proof {
            old(self).lemma_wf_frame(self);
        }
    }

    /// Records that `unit_id` stands on `location`, leaving the factions as they are; refused,
    /// with `false`, when the unit or the location is taken.
    pub fn insert_unit_location(&mut self, unit_id: ID, location: Location) -> (is_inserted: bool)
        requires
            old(self).wf(),
            old(self).in_bounds(location),
            unit_id < old(self).scene().unit_builders().len(),
        ensures
            final(self).wf(),
            old(self).same_ground(final(self)),
            old(self).same_factions(final(self)),
            final(self).passable() == old(self).passable(),
            is_inserted == (!old(self).unit_locations().contains_key(unit_id) && !old(self).location_units().contains_key(location)),
            is_inserted ==> final(self).unit_locations() == old(self).unit_locations().insert(unit_id, location),
            is_inserted ==> final(self).location_units() == old(self).location_units().insert(location, unit_id),
            !is_inserted ==> final(self).unit_locations() == old(self).unit_locations(),
            !is_inserted ==> final(self).location_units() == old(self).location_units(),
    {
        let is_inserted: bool = self.unit_locations.insert((unit_id, location)).is_some();

        proof {
            old(self).lemma_ground_factions_frame(self);
            if is_inserted {
                old(self).lemma_units_insert(self, unit_id, location);
            } else {
                old(self).lemma_wf_frame(self);
            }
        }
        is_inserted
    }

    /// Places `unit_id` on `location` when a unit may stand there, giving it to the unit's
    /// faction; returns the terrain there, or `None`, with nothing changed, when the location is
    /// impassable or occupied. The unit must not stand on the map already.
    pub fn place_unit(&mut self, unit_id: ID, location: Location) -> (terrain_id: Option<ID>)
        requires
            old(self).wf(),
            old(self).in_bounds(location),
            !old(self).unit_locations().contains_key(unit_id),
            unit_id < old(self).scene().unit_builders().len(),
        ensures
            final(self).wf(),
            old(self).same_ground(final(self)),
            final(self).passable() == old(self).passable(),
            terrain_id == if old(self).placeable(location) { Some(old(self).tile(location).terrain()) } else { None::<ID> },
            old(self).placeable(location) ==> {
                &&& final(self).unit_locations() == if old(self).location_units().contains_key(location) {
                    old(self).unit_locations()
                } else {
                    old(self).unit_locations().insert(unit_id, location)
                }
                &&& final(self).location_units() == if old(self).location_units().contains_key(location) {
                    old(self).location_units()
                } else {
                    old(self).location_units().insert(location, unit_id)
                }
                &&& final(self).factions() == old(self).factions().insert(old(self).unit_faction(unit_id))
                &&& final(self).location_factions() == old(self).location_factions().insert(location, old(self).unit_faction(unit_id))
            },
            !old(self).placeable(location) ==> old(self).same_units(final(self)) && old(self).same_factions(final(self)),
    {
        let faction_id: ID = self.get_unit_faction(&unit_id);

        if self.is_placeable(&location) {
            proof {
                self.lemma_tile(location);
                assert(self.location_factions().contains_key(location));
            }
            let inserted: Option<(Option<Location>, Option<ID>)> = self.unit_locations.insert((unit_id, location));
            let replaced: Option<ID> = self.faction_locations.replace(location, faction_id);

            proof {
                if inserted is Some {
                    old(self).lemma_units_insert(self, unit_id, location);
                }
                old(self).lemma_factions_insert(self, location, faction_id);
            }
            Some(self.tiles[location.0][location.1].get_terrain_id())
        } else {
            None
        }
    }

    /// Takes `unit_id` off the map.
    pub fn remove_unit(&mut self, unit_id: &ID)
        requires
            old(self).wf(),
        ensures
            final(self).wf(),
            old(self).same_ground(final(self)),
            old(self).same_factions(final(self)),
            final(self).passable() == old(self).passable(),
            final(self).unit_locations() == old(self).unit_locations().remove(*unit_id),
            final(self).location_units() == if old(self).unit_locations().contains_key(*unit_id) {
                old(self).location_units().remove(old(self).unit_locations()[*unit_id])
            } else {
                old(self).location_units()
            },
    {
        self.unit_locations.remove_first(unit_id);
        proof {
            old(self).lemma_ground_factions_frame(self);
            old(self).lemma_units_remove(self, *unit_id);
        }
    }

    /// Every location of a walk from a location of the grid is a placeable location of the grid.
    pub proof fn lemma_walk_placeable(&self, start: Location, moves: Seq<Direction>, passable: Option<ID>)
        requires
            self.wf(),
            self.in_bounds(start),
            forall|i: int| 0 <= i < moves.len() ==> moves[i] != Direction::Length,
        ensures
            self.walk(start, moves, passable).0.len() <= moves.len(),
            forall|k: int| 0 <= k < self.walk(start, moves, passable).0.len() ==> {
                &&& self.in_bounds(#[trigger] self.walk(start, moves, passable).0[k])
                &&& self.placeable_as(self.walk(start, moves, passable).0[k], passable)
            },
            self.in_bounds(end_of(start, self.walk(start, moves, passable).0)),
        decreases moves.len(),
    {
        if moves.len() > 0 {
            self.lemma_walk_placeable(start, moves.drop_last(), passable);
        }
    }

    /// Once a walk fails, the moves after it change nothing.
    pub proof fn lemma_walk_failed(&self, start: Location, moves: Seq<Direction>, passable: Option<ID>, n: int)
        requires
            0 <= n <= moves.len(),
            !self.walk(start, moves.take(n), passable).1,
        ensures
            self.walk(start, moves, passable) == self.walk(start, moves.take(n), passable),
        decreases moves.len() - n,
    {
        if n == moves.len() {
            assert(moves.take(n) =~= moves);
        } else {
            assert(moves.take(n + 1).drop_last() =~= moves.take(n));
            self.lemma_walk_failed(start, moves, passable, n + 1);
        }
    }

    /// The end of a walk of a unit is its start or a location that no unit holds.
    proof fn lemma_end_free(&self, unit_id: ID, start: Location, end: Location)
        requires
            self.wf(),
            self.unit_locations().contains_key(unit_id),
            self.unit_locations()[unit_id] == start,
            end == start || self.placeable_as(end, Some(unit_id)),
        ensures
            end == start || !self.location_units().contains_key(end),
    {
        if end != start && self.location_units().contains_key(end) {
            assert(self.location_units()[end] == unit_id);
            assert(self.unit_locations()[self.location_units()[end]] == end);
        }
    }

    /// The map stays consistent when a unit moves from `start` to a free `end` of the grid.
    proof fn lemma_units_moved(&self, other: &Grid, unit_id: ID, start: Location, end: Location)
        requires
            self.wf(),
            self.unit_locations().contains_key(unit_id),
            self.unit_locations()[unit_id] == start,
            self.in_bounds(end),
            end == start || !self.location_units().contains_key(end),
            self.same_ground(other),
            other.location_factions() == self.location_factions(),
            other.unit_locations() == (if self.location_units().contains_key(end) {
                self.unit_locations().remove(unit_id).remove(self.location_units()[end])
            } else {
                self.unit_locations().remove(unit_id)
            }).insert(unit_id, end),
            other.location_units() == self.location_units().remove(start).remove(end).insert(end, unit_id),
        ensures
            other.wf(),
            other.unit_locations() == self.unit_locations().insert(unit_id, end),
            other.location_units() == self.location_units().remove(start).insert(end, unit_id),
    {
        assert(self.location_units().contains_key(start));
        if end == start {
            assert(self.location_units()[start] == unit_id);
        }
        assert(other.unit_locations() =~= self.unit_locations().insert(unit_id, end));
        assert(other.location_units() =~= self.location_units().remove(start).insert(end, unit_id));
        self.lemma_ground_factions_frame(other);
        assert forall|u: ID| #[trigger] other.unit_locations().contains_key(u) implies {
            &&& other.in_bounds(other.unit_locations()[u])
            &&& u < other.scene().unit_builders().len()
            &&& other.location_units().contains_key(other.unit_locations()[u])
            &&& other.location_units()[other.unit_locations()[u]] == u
        } by {
            assert(self.unit_locations().contains_key(u));
        }
        assert forall|l: Location| #[trigger] other.location_units().contains_key(l) implies {
            &&& other.unit_locations().contains_key(other.location_units()[l])
            &&& other.unit_locations()[other.location_units()[l]] == l
        } by {
            if l != end {
                assert(self.location_units().contains_key(l));
                assert(self.unit_locations().contains_key(self.location_units()[l]));
                if self.location_units()[l] == unit_id {
                    assert(l == start);
                }
            }
        }
    }

    /// Moves `unit_id` along `movements`, counting its own location as free. When every move
    /// succeeds, the unit ends where the walk ends, each location walked over goes to its faction,
    /// and the end and its terrain come back. When a move fails, the unit stays where the
    /// successful moves took it, the factions stay as they were, and `None` comes back. Either
    /// way no unit is passable afterwards.
    pub fn move_unit(&mut self, unit_id: ID, movements: &[Direction]) -> (moved: Option<(Location, ID)>)
        requires
            old(self).wf(),
            old(self).unit_locations().contains_key(unit_id),
            forall|i: int| 0 <= i < movements@.len() ==> movements@[i] != Direction::Length,
        ensures
            final(self).wf(),
            old(self).same_ground(final(self)),
            final(self).passable() == None::<ID>,
            ({
                let start = old(self).unit_locations()[unit_id];
                let (path, is_complete) = old(self).walk(start, movements@, Some(unit_id));
                let end = end_of(start, path);
                let faction_id = old(self).unit_faction(unit_id);
                &&& final(self).unit_locations() == old(self).unit_locations().insert(unit_id, end)
                &&& final(self).location_units() == old(self).location_units().remove(start).insert(end, unit_id)
                &&& is_complete ==> {
                    &&& moved == Some((end, old(self).tile(end).terrain()))
                    &&& final(self).factions() == if path.len() > 0 {
                        old(self).factions().insert(faction_id)
                    } else {
                        old(self).factions()
                    }
                    &&& final(self).location_factions() == Map::new(
                        |l: Location| old(self).location_factions().contains_key(l),
                        |l: Location| if path.contains(l) { faction_id } else { old(self).location_factions()[l] },
                    )
                }
                &&& !is_complete ==> {
                    &&& moved == None::<(Location, ID)>
                    &&& old(self).same_factions(final(self))
                }
            }),
    {
        let ghost moves: Seq<Direction> = movements@;
        let faction_id: ID = self.get_unit_faction(&unit_id);
        let start: Location = *self.get_unit_location(&unit_id);
        let mut end: Location = start;
        let mut locations: Vec<Location> = Vec::new();

        self.set_unit_id_passable(Some(unit_id));

        let ghost passable: Option<ID> = Some(unit_id);
        let mut k: usize = 0;

        proof {
            assert(moves.take(0) =~= Seq::<Direction>::empty());
            old(self).lemma_walk_placeable(start, moves, passable);
        }
        while k < movements.len()
            invariant
                self.wf(),
                old(self).wf(),
                old(self).same_ground(self),
                old(self).same_factions(self),
                self.unit_locations() == old(self).unit_locations(),
                self.location_units() == old(self).location_units(),
                self.passable() == passable,
                passable == Some(unit_id),
                moves == movements@,
                old(self).unit_locations().contains_key(unit_id),
                start == old(self).unit_locations()[unit_id],
                old(self).in_bounds(start),
                faction_id == old(self).unit_faction(unit_id),
                forall|i: int| 0 <= i < moves.len() ==> moves[i] != Direction::Length,
                k <= moves.len(),
                old(self).walk(start, moves.take(k as int), passable) == (locations@, true),
                end == end_of(start, locations@),
                self.in_bounds(end),
            decreases moves.len() - k,
        {
            proof {
                assert(moves.take(k + 1).drop_last() =~= moves.take(k as int));
                assert(moves.take(k + 1).last() == moves[k as int]);
                old(self).lemma_walk_placeable(start, moves.take(k + 1), passable);
            }
            match self.try_move(&end, movements[k]) {
                Some(e) => {
                    locations.push(e.0);
                    end = e.0;
                },
                None => {
                    proof {
                        old(self).lemma_walk_failed(start, moves, passable, k + 1);
                        old(self).lemma_walk_placeable(start, moves, passable);
                        old(self).lemma_end_free(unit_id, start, end);
                    }
                    let ghost before: Grid = *self;

                    self.unit_locations.replace_first(unit_id, end);
                    proof {
                        before.lemma_units_moved(self, unit_id, start, end);
                    }
                    self.set_unit_id_passable(None);

                    return None;
                },
            }
            k += 1;
        }

        proof {
            assert(moves.take(moves.len() as int) =~= moves);
            old(self).lemma_walk_placeable(start, moves, passable);
            old(self).lemma_end_free(unit_id, start, end);
        }

        let mut m: usize = 0;

        while m < locations.len()
            invariant
                self.wf(),
                old(self).wf(),
                old(self).same_ground(self),
                self.unit_locations() == old(self).unit_locations(),
                self.location_units() == old(self).location_units(),
                self.passable() == passable,
                passable == Some(unit_id),
                old(self).unit_locations().contains_key(unit_id),
                start == old(self).unit_locations()[unit_id],
                end == start || !old(self).location_units().contains_key(end),
                old(self).in_bounds(end),
                m <= locations@.len(),
                forall|i: int| 0 <= i < locations@.len() ==> old(self).in_bounds(#[trigger] locations@[i]),
                self.factions() == if m > 0 { old(self).factions().insert(faction_id) } else { old(self).factions() },
                self.location_factions() == Map::new(
                    |l: Location| old(self).location_factions().contains_key(l),
                    |l: Location| if locations@.take(m as int).contains(l) { faction_id } else { old(self).location_factions()[l] },
                ),
            decreases locations@.len() - m,
        {
            let location: Location = locations[m];
            let ghost before: Grid = *self;

            proof {
                assert(self.location_factions().contains_key(location));
            }
            let replaced: Option<ID> = self.faction_locations.replace(location, faction_id);

            proof {
                before.lemma_factions_insert(self, location, faction_id);
                before.lemma_units_frame(self);
                assert(locations@.take(m + 1) =~= locations@.take(m as int).push(location));
                assert forall|l: Location| #[trigger] locations@.take(m + 1).contains(l)
                    == (locations@.take(m as int).contains(l) || l == location) by {
                    let t = locations@.take(m as int);
                    if t.push(location).contains(l) && l != location {
                        let i = choose|i: int| 0 <= i < t.push(location).len() && t.push(location)[i] == l;
                        assert(t[i] == l);
                    }
                    if t.contains(l) {
                        let i = choose|i: int| 0 <= i < t.len() && t[i] == l;
                        assert(t.push(location)[i] == l);
                    }
                    if l == location {
                        assert(t.push(location)[m as int] == l);
                    }
                }
                assert(self.location_factions() =~= Map::new(
                    |l: Location| old(self).location_factions().contains_key(l),
                    |l: Location| if locations@.take(m + 1).contains(l) { faction_id } else { old(self).location_factions()[l] },
                ));
            }
            m += 1;
        }

        proof {
            assert(locations@.take(locations@.len() as int) =~= locations@);
            self.lemma_tile(end);
        }
        let terrain_id: ID = self.tiles[end.0][end.1].get_terrain_id();
        let ghost before: Grid = *self;

        self.unit_locations.replace_first(unit_id, end);
        proof {
            before.lemma_units_moved(self, unit_id, start, end);
        }
        self.set_unit_id_passable(None);

        Some((end, terrain_id))
    }

    /// Whether a search under `reach` may enter `location`.
    pub open spec fn admits(&self, location: Location, reach: Reach) -> bool {
        match reach {
            Reach::Anywhere => true,
            Reach::Faction(f) => self.location_factions()[location] == f,
            Reach::Unclaimed => self.tile(location).city() is None && !self.location_units().contains_key(location),
        }
    }

    /// Whether `after` is `before` with the neighbour of `location` in `direction` added, unless it
    /// is off the grid, already in `before`, or not admitted.
    pub open spec fn visited_from(&self, before: Seq<Location>, after: Seq<Location>, location: Location, direction: Direction,
        reach: Reach) -> bool {
        after == match self.next(location, direction) {
            Some(n) => if !before.contains(n) && self.admits(n, reach) {
                before.push(n)
            } else {
                before
            },
            None => before,
        }
    }

    /// One visit keeps what was found and finds the neighbour when it is linked.
    proof fn lemma_visit(&self, before: Seq<Location>, after: Seq<Location>, location: Location, direction: Direction,
        reach: Reach)
        requires
            self.visited_from(before, after, location, direction, reach),
            self.in_bounds(location),
            before.no_duplicates(),
        ensures
            before.is_prefix_of(after),
            after.no_duplicates(),
            forall|b: Location| #[trigger] after.contains(b) ==> before.contains(b) || self.linked(location, b, reach),
            forall|b: Location| #[trigger] before.contains(b) ==> after.contains(b),
            forall|b: Location| self.next(location, direction) == Some(b) && self.admits(b, reach) ==> #[trigger] after.contains(b),
    {
        assert forall|b: Location| #[trigger] before.contains(b) implies after.contains(b) by {
            let k = choose|k: int| 0 <= k < before.len() && before[k] == b;
            assert(after[k] == b);
        }
        assert forall|b: Location| #[trigger] after.contains(b) implies before.contains(b) || self.linked(location, b, reach) by {
            let k = choose|k: int| 0 <= k < after.len() && after[k] == b;
            if k < before.len() {
                assert(before[k] == b);
            }
        }
        assert forall|b: Location| self.next(location, direction) == Some(b) && self.admits(b, reach) implies #[trigger] after.contains(b) by {
            if !before.contains(b) {
                assert(after[after.len() - 1] == b);
            }
        }
    }

    /// Adds the neighbour of `location` in `direction` to `found`, unless it is off the grid,
    /// already found, or not admitted.
    fn visit(&self, found: &mut Vec<Location>, visited: &mut Vec<Vec<bool>>, location: &Location, direction: Direction, reach: Reach)
        requires
            self.wf(),
            self.in_bounds(*location),
            direction != Direction::Length,
            marks(rows_of(old(visited)@), self.rows(), self.columns(), old(found)@),
        ensures
            marks(rows_of(final(visited)@), self.rows(), self.columns(), final(found)@),
            self.visited_from(old(found)@, final(found)@, *location, direction, reach),
    {
        if let Some(n) = self.try_connect(location, direction) {
            proof {
                assert(rows_of(visited@)[n.0 as int] == visited@[n.0 as int]@);
            }
            if !visited[n.0][n.1] {
                let is_admitted: bool = match reach {
                    Reach::Anywhere => true,
                    Reach::Faction(f) => {
                        proof {
                            assert(self.location_factions().contains_key(n));
                        }
                        *self.get_location_faction(&n) == f
                    },
                    Reach::Unclaimed => {
                        proof {
                            self.lemma_tile(n);
                        }
                        self.tiles[n.0][n.1].get_city_id().is_none() && self.get_location_unit(&n).is_none()
                    },
                };

                if is_admitted {
                    let ghost before_found: Seq<Location> = found@;
                    let ghost before_visited: Seq<Seq<bool>> = rows_of(visited@);

                    found.push(n);
                    visited[n.0][n.1] = true;
                    proof {
                        let v = rows_of(visited@);
                        assert forall|i: int| 0 <= i < self.rows() implies (#[trigger] v[i]).len() == self.columns() by {
                            assert(v[i] == visited@[i]@);
                            assert(before_visited[i] == old(visited)@[i]@);
                        }
                        assert forall|l: Location| l.0 < self.rows() && l.1 < self.columns() implies (v[l.0 as int][l.1 as int]
                            <==> #[trigger] found@.contains(l)) by {
                            assert(v[l.0 as int] == visited@[l.0 as int]@);
                            assert(before_visited[l.0 as int] == old(visited)@[l.0 as int]@);
                            if found@.contains(l) && l != n {
                                let k = choose|k: int| 0 <= k < found@.len() && found@[k] == l;
                                assert(before_found[k] == l);
                            }
                            if before_found.contains(l) {
                                let k = choose|k: int| 0 <= k < before_found.len() && before_found[k] == l;
                                assert(found@[k] == l);
                            }
                            assert(found@[found@.len() - 1] == n);
                        }
                    }
                }
            }
        }
    }

    /// One step between neighbours changes the distance from any location by exactly one.
    proof fn lemma_step_distance(&self, start: Location, a: Location, b: Location)
        requires
            self.wf(),
            self.adjacent(a, b),
        ensures
            distance(start, b) == distance(start, a) + 1 || distance(start, b) == distance(start, a) - 1,
    {
        if self.next(a, Direction::Up) == Some(b) {
            assert(b.0 == a.0 - 1 && b.1 == a.1);
        } else if self.next(a, Direction::Right) == Some(b) {
            assert(b.0 == a.0 && b.1 == a.1 + 1);
        } else if self.next(a, Direction::Left) == Some(b) {
            assert(b.0 == a.0 && b.1 == a.1 - 1);
        } else {
            assert(self.next(a, Direction::Down) == Some(b));
            assert(b.0 == a.0 + 1 && b.1 == a.1);
        }
    }

    /// A location of the grid other than `start` neighbours a location of the grid one step
    /// nearer to `start`.
    proof fn lemma_step_nearer(&self, start: Location, l: Location)
        requires
            self.in_bounds(start),
            self.in_bounds(l),
            l != start,
        ensures
            exists|m: Location| #[trigger] self.in_bounds(m) && self.adjacent(m, l) && distance(start, m) == distance(start, l) - 1,
    {
        let m: Location = if l.0 > start.0 {
            ((l.0 - 1) as usize, l.1)
        } else if l.0 < start.0 {
            ((l.0 + 1) as usize, l.1)
        } else if l.1 > start.1 {
            (l.0, (l.1 - 1) as usize)
        } else {
            (l.0, (l.1 + 1) as usize)
        };
        if l.0 > start.0 {
            assert(self.next(m, Direction::Down) == Some(l));
        } else if l.0 < start.0 {
            assert(self.next(m, Direction::Up) == Some(l));
        } else if l.1 > start.1 {
            assert(self.next(m, Direction::Right) == Some(l));
        } else {
            assert(self.next(m, Direction::Left) == Some(l));
        }
        assert(self.in_bounds(m) && self.adjacent(m, l) && distance(start, m) == distance(start, l) - 1);
    }

    /// Whether the locations of `found` come in order of their distance from `start`.
    spec fn by_distance(start: Location, found: Seq<Location>) -> bool {
        forall|i: int, j: int| 0 <= i <= j < found.len() ==> distance(start, #[trigger] found[i]) <= distance(start, #[trigger] found[j])
    }

    /// Whether a breadth-first search from `start` that has expanded the first `head` locations of
    /// `found` keeps them in order of distance: the rest lie at most a step beyond the next one,
    /// and every location nearer than the next one is found.
    spec fn layered(&self, start: Location, found: Seq<Location>, head: int) -> bool {
        &&& Self::by_distance(start, found)
        &&& head < found.len() ==> forall|j: int| 0 <= j < found.len()
            ==> distance(start, #[trigger] found[j]) <= distance(start, found[head]) + 1
        &&& head < found.len() ==> forall|l: Location| #[trigger] self.in_bounds(l)
            && distance(start, l) < distance(start, found[head]) ==> found.contains(l)
    }

    /// Expanding the next location of a breadth-first search over the whole grid keeps its
    /// locations in order of distance.
    proof fn lemma_layered_step(&self, start: Location, before: Seq<Location>, after: Seq<Location>, head: int)
        requires
            self.wf(),
            self.in_bounds(start),
            0 <= head < before.len(),
            before[0] == start,
            forall|i: int| 0 <= i < after.len() ==> self.in_bounds(#[trigger] after[i]),
            before.is_prefix_of(after),
            after.no_duplicates(),
            forall|b: Location| #[trigger] after.contains(b) ==> before.contains(b) || self.linked(before[head], b, Reach::Anywhere),
            forall|i: int, b: Location| 0 <= i < head && #[trigger] self.linked(before[i], b, Reach::Anywhere) ==> before.contains(b),
            forall|b: Location| #[trigger] self.linked(before[head], b, Reach::Anywhere) ==> after.contains(b),
            self.layered(start, before, head),
        ensures
            self.layered(start, after, head + 1),
    {
        let d = distance(start, before[head]);
        assert forall|k: int| before.len() <= k < after.len() implies distance(start, #[trigger] after[k]) == d + 1 by {
            let b = after[k];
            assert(after.contains(b));
            if before.contains(b) {
                let x = choose|x: int| 0 <= x < before.len() && before[x] == b;
                assert(after[x] == b);
            } else {
                self.lemma_step_distance(start, before[head], b);
                if distance(start, b) == d - 1 {
                    assert(before.contains(b));
                }
            }
        }
        assert forall|j: int| 0 <= j < after.len() implies distance(start, #[trigger] after[j]) <= d + 1 by {
            if j < before.len() {
                assert(after[j] == before[j]);
            }
        }
        assert(Self::by_distance(start, after)) by {
            assert forall|i: int, j: int| 0 <= i <= j < after.len() implies distance(start, #[trigger] after[i])
                <= distance(start, #[trigger] after[j]) by {
                if j < before.len() {
                    assert(after[i] == before[i] && after[j] == before[j]);
                } else if i < before.len() {
                    assert(after[i] == before[i]);
                }
            }
        }
        if head + 1 < after.len() {
            let e = distance(start, after[head + 1]);
            assert(after[head] == before[head]);
            assert(d <= e <= d + 1);
            assert forall|l: Location| #[trigger] self.in_bounds(l) && distance(start, l) < e implies after.contains(l) by {
                if distance(start, l) < d {
                    assert(before.contains(l));
                    let x = choose|x: int| 0 <= x < before.len() && before[x] == l;
                    assert(after[x] == l);
                } else if d == 0 {
                    assert(l == start);
                    assert(after[0] == l);
                } else {
                    self.lemma_step_nearer(start, l);
                    let m = choose|m: Location| #[trigger] self.in_bounds(m) && self.adjacent(m, l)
                        && distance(start, m) == distance(start, l) - 1;
                    assert(before.contains(m));
                    let k = choose|k: int| 0 <= k < before.len() && before[k] == m;
                    if k >= head {
                        assert(distance(start, before[head]) <= distance(start, before[k]));
                    }
                    assert(self.linked(before[k], l, Reach::Anywhere));
                    assert(before.contains(l));
                    let x = choose|x: int| 0 <= x < before.len() && before[x] == l;
                    assert(after[x] == l);
                }
            }
        }
    }

    /// The locations that a search from `start` reaches, in the order a breadth-first search
    /// finds them.
    fn search(&self, start: &Location, reach: Reach) -> (found: Vec<Location>)
        requires
            self.wf(),
            self.in_bounds(*start),
        ensures
            found@.len() > 0,
            found@[0] == *start,
            found@.no_duplicates(),
            forall|i: int| 0 <= i < found@.len() ==> self.in_bounds(#[trigger] found@[i]),
            forall|l: Location| #[trigger] found@.contains(l) <==> self.connected(*start, l, reach),
            reach == Reach::Anywhere ==> Self::by_distance(*start, found@),
    {
        proof {
            assert(self.tiles()[0] == self.tiles@[0]@);
        }
        let height: usize = self.tiles.len();
        let width: usize = self.tiles[0].len();
        let mut visited: Vec<Vec<bool>> = unvisited(height, width);
        let mut found: Vec<Location> = Vec::new();

        proof {
            assert(rows_of(visited@)[start.0 as int] == visited@[start.0 as int]@);
        }
        let ghost v0: Seq<Vec<bool>> = visited@;

        found.push(*start);
        visited[start.0][start.1] = true;
        proof {
            let v = rows_of(visited@);
            assert forall|i: int| 0 <= i < self.rows() implies (#[trigger] v[i]).len() == self.columns() by {
                assert(v[i] == visited@[i]@);
                assert(rows_of(v0)[i] == v0[i]@);
            }
            assert forall|l: Location| l.0 < self.rows() && l.1 < self.columns() implies (v[l.0 as int][l.1 as int]
                <==> #[trigger] found@.contains(l)) by {
                assert(v[l.0 as int] == visited@[l.0 as int]@);
                assert(rows_of(v0)[l.0 as int] == v0[l.0 as int]@);
                assert(!Seq::<Location>::empty().contains(l));
                if l == *start {
                    assert(found@[0] == l);
                }
            }
            self.lemma_connected_start(*start, reach);
            assert(reach == Reach::Anywhere ==> self.layered(*start, found@, 0));
        }

        let mut head: usize = 0;

        while head < found.len()
            invariant
                self.wf(),
                self.in_bounds(*start),
                found@.len() > 0,
                found@[0] == *start,
                found@.no_duplicates(),
                head <= found@.len(),
                forall|i: int| 0 <= i < found@.len() ==> self.in_bounds(#[trigger] found@[i]),
                marks(rows_of(visited@), self.rows(), self.columns(), found@),
                forall|i: int| 0 <= i < found@.len() ==> self.connected(*start, #[trigger] found@[i], reach),
                forall|i: int, b: Location| 0 <= i < head && #[trigger] self.linked(found@[i], b, reach) ==> found@.contains(b),
                reach == Reach::Anywhere ==> self.layered(*start, found@, head as int),
            decreases self.rows() * self.columns() - head,
        {
            let location: Location = found[head];
            let ghost before: Seq<Location> = found@;

            self.visit(&mut found, &mut visited, &location, Direction::Up, reach);
            let ghost f1: Seq<Location> = found@;
            self.visit(&mut found, &mut visited, &location, Direction::Right, reach);
            let ghost f2: Seq<Location> = found@;
            self.visit(&mut found, &mut visited, &location, Direction::Left, reach);
            let ghost f3: Seq<Location> = found@;
            self.visit(&mut found, &mut visited, &location, Direction::Down, reach);
            proof {
                self.lemma_visit(before, f1, location, Direction::Up, reach);
                self.lemma_visit(f1, f2, location, Direction::Right, reach);
                self.lemma_visit(f2, f3, location, Direction::Left, reach);
                self.lemma_visit(f3, found@, location, Direction::Down, reach);
                assert(before.is_prefix_of(found@));
                assert forall|i: int| 0 <= i < found@.len() implies self.in_bounds(#[trigger] found@[i])
                    && self.connected(*start, found@[i], reach) by {
                    if i < before.len() {
                        assert(found@[i] == before[i]);
                    } else {
                        assert(found@.contains(found@[i]));
                        assert(!before.contains(found@[i]));
                        assert(self.linked(location, found@[i], reach));
                        self.lemma_connected_extend(*start, location, found@[i], reach);
                    }
                }
                assert forall|i: int, b: Location| 0 <= i < head + 1 && #[trigger] self.linked(found@[i], b, reach)
                    implies found@.contains(b) by {
                    if i < head {
                        assert(found@[i] == before[i]);
                        assert(before.contains(b));
                    } else {
                        assert(found@[i] == location);
                        if self.next(location, Direction::Up) == Some(b) {
                            assert(f1.contains(b));
                            assert(f2.contains(b));
                            assert(f3.contains(b));
                        } else if self.next(location, Direction::Right) == Some(b) {
                            assert(f2.contains(b));
                            assert(f3.contains(b));
                        } else if self.next(location, Direction::Left) == Some(b) {
                            assert(f3.contains(b));
                        }
                    }
                }
                lemma_cells_bound(found@, self.rows(), self.columns());
                if reach == Reach::Anywhere {
                    assert forall|b: Location| #[trigger] found@.contains(b) implies before.contains(b)
                        || self.linked(before[head as int], b, reach) by {
                        assert(location == before[head as int]);
                        if !f3.contains(b) {
                        } else if !f2.contains(b) {
                        } else if !f1.contains(b) {
                        }
                    }
                    assert forall|b: Location| #[trigger] self.linked(before[head as int], b, reach) implies found@.contains(b) by {
                        assert(found@[head as int] == before[head as int]);
                    }
                    assert forall|i: int, b: Location| 0 <= i < head && #[trigger] self.linked(before[i], b, reach)
                        implies before.contains(b) by {
                        assert(found@[i] == before[i]);
                    }
                    self.lemma_layered_step(*start, before, found@, head as int);
                }
            }
            head += 1;
        }

        proof {
            assert forall|l: Location| #[trigger] found@.contains(l) <==> self.connected(*start, l, reach) by {
                if found@.contains(l) {
                    let k = choose|k: int| 0 <= k < found@.len() && found@[k] == l;
                }
                if self.connected(*start, l, reach) {
                    assert(found@.contains(*start)) by {
                        assert(found@[0] == *start);
                    }
                    assert forall|a: Location, b: Location| found@.contains(a) && #[trigger] self.linked(a, b, reach)
                        implies found@.contains(b) by {
                        let k = choose|k: int| 0 <= k < found@.len() && found@[k] == a;
                    }
                    self.lemma_closed_reaches(found@, *start, l, reach);
                }
            }
        }
        found
    }

    /// Gets the placeable location nearest to `location`, searching outwards from it
    /// breadth-first; some location of the grid must be placeable.
    pub fn find_nearest_placeable(&self, location: &Location) -> (nearest: Location)
        requires
            self.wf(),
            self.in_bounds(*location),
            exists|l: Location| self.in_bounds(l) && #[trigger] self.placeable(l),
        ensures
            self.in_bounds(nearest),
            self.placeable(nearest),
            forall|l: Location| self.in_bounds(l) && #[trigger] self.placeable(l)
                ==> distance(*location, nearest) <= distance(*location, l),
    {
        let found: Vec<Location> = self.search(location, Reach::Anywhere);
        let mut i: usize = 0;

        while i < found.len()
            invariant
                self.wf(),
                self.in_bounds(*location),
                i <= found@.len(),
                forall|k: int| 0 <= k < found@.len() ==> self.in_bounds(#[trigger] found@[k]),
                forall|k: int| 0 <= k < i ==> !self.placeable(#[trigger] found@[k]),
                forall|l: Location| #[trigger] found@.contains(l) <==> self.connected(*location, l, Reach::Anywhere),
                Self::by_distance(*location, found@),
            decreases found@.len() - i,
        {
            if self.is_placeable(&found[i]) {
                proof {
                    assert forall|l: Location| self.in_bounds(l) && #[trigger] self.placeable(l)
                        implies distance(*location, found@[i as int]) <= distance(*location, l) by {
                        self.lemma_grid_connected(*location, l);
                        assert(found@.contains(l));
                        let k = choose|k: int| 0 <= k < found@.len() && found@[k] == l;
                        if k < i {
                            assert(!self.placeable(found@[k]));
                        }
                    }
                }
                return found[i];
            }
            i += 1;
        }

        proof {
            let l = choose|l: Location| self.in_bounds(l) && #[trigger] self.placeable(l);
            self.lemma_grid_connected(*location, l);
            assert(found@.contains(l));
            let k = choose|k: int| 0 <= k < found@.len() && found@[k] == l;
            assert(!self.placeable(found@[k]));
        }
        unreached()
    }

    /// Whether `cells` lists, once each, the locations with a city that a search from `start`
    /// under `reach` reaches.
    pub open spec fn cities_reached(&self, cells: Seq<Location>, start: Location, reach: Reach) -> bool {
        &&& cells.no_duplicates()
        &&& forall|l: Location| #[trigger] cells.contains(l) <==> self.connected(start, l, reach) && self.tile(l).city() is Some
    }

    /// The city identifiers of `cells`.
    pub open spec fn cities_of(&self, cells: Seq<Location>) -> Seq<ID> {
        cells.map_values(|l: Location| self.tile(l).city()->Some_0)
    }

    /// The cities of the locations in `found`, in order, with the locations they stand on.
    fn collect_cities(&self, found: &Vec<Location>) -> (cities: (Vec<ID>, Ghost<Seq<Location>>))
        requires
            self.wf(),
            found@.no_duplicates(),
            forall|i: int| 0 <= i < found@.len() ==> self.in_bounds(#[trigger] found@[i]),
        ensures
            cities.1@.no_duplicates(),
            forall|l: Location| #[trigger] cities.1@.contains(l) <==> found@.contains(l) && self.tile(l).city() is Some,
            cities.0@ == self.cities_of(cities.1@),
    {
        let mut city_ids: Vec<ID> = Vec::new();
        let ghost mut cells: Seq<Location> = Seq::empty();
        let mut i: usize = 0;

        while i < found.len()
            invariant
                self.wf(),
                found@.no_duplicates(),
                forall|k: int| 0 <= k < found@.len() ==> self.in_bounds(#[trigger] found@[k]),
                i <= found@.len(),
                cells.no_duplicates(),
                forall|l: Location| #[trigger] cells.contains(l) <==> exists|k: int| 0 <= k < i && found@[k] == l && self.tile(l).city() is Some,
                city_ids@ == self.cities_of(cells),
            decreases found@.len() - i,
        {
            let location: Location = found[i];

            proof {
                self.lemma_tile(location);
            }
            match self.tiles[location.0][location.1].get_city_id() {
                Some(c) => {
                    proof {
                        if cells.contains(location) {
                            let k = choose|k: int| 0 <= k < i && found@[k] == location && self.tile(location).city() is Some;
                            assert(found@[k] == found@[i as int]);
                        }
                    }
                    let ghost before: Seq<Location> = cells;

                    city_ids.push(c);
                    proof {
                        cells = cells.push(location);
                        assert(city_ids@ =~= self.cities_of(cells));
                        assert forall|l: Location| #[trigger] cells.contains(l) <==> exists|k: int| 0 <= k < i + 1 && found@[k] == l
                            && self.tile(l).city() is Some by {
                            if cells.contains(l) && l != location {
                                let k = choose|k: int| 0 <= k < cells.len() && cells[k] == l;
                                assert(before[k] == l);
                                assert(before.contains(l));
                            }
                            if exists|k: int| 0 <= k < i + 1 && found@[k] == l && self.tile(l).city() is Some {
                                if l == location {
                                    assert(cells[cells.len() - 1] == l);
                                } else {
                                    let k = choose|k: int| 0 <= k < i + 1 && found@[k] == l && self.tile(l).city() is Some;
                                    assert(k < i);
                                    assert(before.contains(l));
                                    let j = choose|j: int| 0 <= j < before.len() && before[j] == l;
                                    assert(cells[j] == l);
                                }
                            }
                        }
                    }
                },
                None => {
                    proof {
                        assert forall|l: Location| #[trigger] cells.contains(l) <==> exists|k: int| 0 <= k < i + 1 && found@[k] == l
                            && self.tile(l).city() is Some by {
                            if exists|k: int| 0 <= k < i + 1 && found@[k] == l && self.tile(l).city() is Some {
                                let k = choose|k: int| 0 <= k < i + 1 && found@[k] == l && self.tile(l).city() is Some;
                                assert(k < i);
                            }
                        }
                    }
                },
            }
            i += 1;
        }

        proof {
            assert forall|l: Location| #[trigger] cells.contains(l) <==> found@.contains(l) && self.tile(l).city() is Some by {
                if found@.contains(l) && self.tile(l).city() is Some {
                    let k = choose|k: int| 0 <= k < found@.len() && found@[k] == l;
                }
            }
        }
        (city_ids, Ghost(cells))
    }

    /// Gets the cities that supply `unit_id`: those on the locations that its faction controls
    /// and that connect to where it stands, in the order a breadth-first search finds them.
    pub fn find_unit_cities(&self, unit_id: &ID) -> (city_ids: Vec<ID>)
        requires
            self.wf(),
            self.unit_locations().contains_key(*unit_id),
        ensures
            exists|cells: Seq<Location>| {
                &&& #[trigger] self.cities_reached(cells, self.unit_locations()[*unit_id], Reach::Faction(self.unit_faction(*unit_id)))
                &&& city_ids@ == self.cities_of(cells)
            },
    {
        let location: Location = *self.get_unit_location(unit_id);
        let faction_id: ID = self.get_unit_faction(unit_id);
        let found: Vec<Location> = self.search(&location, Reach::Faction(faction_id));
        let (city_ids, cells): (Vec<ID>, Ghost<Seq<Location>>) = self.collect_cities(&found);

        proof {
            assert(self.cities_reached(cells@, location, Reach::Faction(faction_id)));
        }
        city_ids
    }

    /// Whether a search from `start` under `reach` reaches a city.
    pub open spec fn reaches_city(&self, start: Location, reach: Reach) -> bool {
        exists|l: Location| #[trigger] self.connected(start, l, reach) && self.tile(l).city() is Some
    }

    /// Gets the locations that supply `unit_id`: the locations that its faction controls and that
    /// connect to where it stands, with it, in the order a breadth-first search finds them, when
    /// they hold a city; none when they do not.
    pub fn find_locations_supplied(&self, unit_id: &ID) -> (locations: Vec<Location>)
        requires
            self.wf(),
            self.unit_locations().contains_key(*unit_id),
        ensures
            ({
                let start = self.unit_locations()[*unit_id];
                let reach = Reach::Faction(self.unit_faction(*unit_id));
                &&& self.reaches_city(start, reach) ==> {
                    &&& locations@.len() > 0
                    &&& locations@[0] == start
                    &&& locations@.no_duplicates()
                    &&& forall|l: Location| #[trigger] locations@.contains(l) <==> self.connected(start, l, reach)
                }
                &&& !self.reaches_city(start, reach) ==> locations@.len() == 0
            }),
            forall|i: int| 0 <= i < locations@.len() ==> self.in_bounds(#[trigger] locations@[i]),
    {
        let location: Location = *self.get_unit_location(unit_id);
        let faction_id: ID = self.get_unit_faction(unit_id);
        let found: Vec<Location> = self.search(&location, Reach::Faction(faction_id));
        let mut has_city: bool = false;
        let mut i: usize = 0;

        while i < found.len()
            invariant
                self.wf(),
                forall|k: int| 0 <= k < found@.len() ==> self.in_bounds(#[trigger] found@[k]),
                i <= found@.len(),
                has_city <==> exists|k: int| 0 <= k < i && self.tile(#[trigger] found@[k]).city() is Some,
            decreases found@.len() - i,
        {
            proof {
                self.lemma_tile(found@[i as int]);
            }
            if self.tiles[found[i].0][found[i].1].get_city_id().is_some() {
                has_city = true;
            }
            i += 1;
        }

        proof {
            let reach = Reach::Faction(faction_id);
            if has_city {
                let k = choose|k: int| 0 <= k < found@.len() && self.tile(#[trigger] found@[k]).city() is Some;
                assert(found@.contains(found@[k]));
                assert(self.connected(location, found@[k], reach));
            }
            if self.reaches_city(location, reach) {
                let l = choose|l: Location| #[trigger] self.connected(location, l, reach) && self.tile(l).city() is Some;
                assert(found@.contains(l));
                let k = choose|k: int| 0 <= k < found@.len() && found@[k] == l;
                assert(self.tile(found@[k]).city() is Some);
            }
        }
        if has_city {
            found
        } else {
            Vec::new()
        }
    }

    /// Whether `location` supplies `unit_id`: a city connects to where the unit stands through
    /// locations of its faction, and so does `location`.
    pub open spec fn supplied(&self, unit_id: ID, location: Location) -> bool {
        let start = self.unit_locations()[unit_id];
        let reach = Reach::Faction(self.unit_faction(unit_id));
        self.reaches_city(start, reach) && self.connected(start, location, reach)
    }

    /// Whether `unit_id` claims `location`: it does not supply the unit, but it neighbours a
    /// location that does, and holds neither a city nor a unit.
    pub open spec fn claimed(&self, unit_id: ID, location: Location) -> bool {
        &&& !self.supplied(unit_id, location)
        &&& exists|c: Location| #[trigger] self.supplied(unit_id, c) && self.linked(c, location, Reach::Unclaimed)
    }

    /// Whether `location` is linked, under the unclaimed reach, from one of `sources`.
    pub open spec fn claimable_from(&self, sources: Seq<Location>, location: Location) -> bool {
        exists|c: Location| sources.contains(c) && #[trigger] self.linked(c, location, Reach::Unclaimed)
    }

    /// The locations found beyond the supplied ones are exactly those the unit claims.
    proof fn lemma_claimed(&self, unit_id: ID, supplied: Seq<Location>, marked: Seq<Location>)
        requires
            forall|c: Location| #[trigger] supplied.contains(c) <==> self.supplied(unit_id, c),
            supplied.is_prefix_of(marked),
            marked.no_duplicates(),
            forall|k: int| supplied.len() <= k < marked.len() ==> #[trigger] self.claimable_from(supplied, marked[k]),
            forall|k: int, b: Location| 0 <= k < supplied.len() && #[trigger] self.linked(supplied[k], b, Reach::Unclaimed)
                ==> marked.contains(b),
        ensures
            forall|l: Location| #[trigger] marked.subrange(supplied.len() as int, marked.len() as int).contains(l)
                <==> self.claimed(unit_id, l),
    {
        let claims = marked.subrange(supplied.len() as int, marked.len() as int);
        assert forall|l: Location| #[trigger] claims.contains(l) <==> self.claimed(unit_id, l) by {
            if claims.contains(l) {
                let j = choose|j: int| 0 <= j < claims.len() && claims[j] == l;
                let k = j + supplied.len();
                assert(marked[k] == l);
                assert(self.claimable_from(supplied, marked[k]));
                let c = choose|c: Location| supplied.contains(c) && #[trigger] self.linked(c, marked[k], Reach::Unclaimed);
                assert(self.supplied(unit_id, c));
                if supplied.contains(l) {
                    let m = choose|m: int| 0 <= m < supplied.len() && supplied[m] == l;
                    assert(marked[m] == l);
                }
            }
            if self.claimed(unit_id, l) {
                let c = choose|c: Location| #[trigger] self.supplied(unit_id, c) && self.linked(c, l, Reach::Unclaimed);
                assert(supplied.contains(c));
                let m = choose|m: int| 0 <= m < supplied.len() && supplied[m] == c;
                assert(self.linked(supplied[m], l, Reach::Unclaimed));
                assert(marked.contains(l));
                let k = choose|k: int| 0 <= k < marked.len() && marked[k] == l;
                if k < supplied.len() {
                    assert(supplied[k] == l);
                    assert(supplied.contains(l));
                }
                assert(claims[k - supplied.len()] == l);
            }
        }
    }

    /// Gives the faction of `unit_id` every location that the unit claims.
    pub fn expand_control(&mut self, unit_id: &ID)
        requires
            old(self).wf(),
            old(self).unit_locations().contains_key(*unit_id),
        ensures
            final(self).wf(),
            old(self).same_ground(final(self)),
            old(self).same_units(final(self)),
            final(self).location_factions() == Map::new(
                |l: Location| old(self).location_factions().contains_key(l),
                |l: Location| if old(self).claimed(*unit_id, l) {
                    old(self).unit_faction(*unit_id)
                } else {
                    old(self).location_factions()[l]
                },
            ),
            final(self).factions() == if exists|l: Location| #[trigger] old(self).claimed(*unit_id, l) {
                old(self).factions().insert(old(self).unit_faction(*unit_id))
            } else {
                old(self).factions()
            },
    {
        let faction_id: ID = self.get_unit_faction(unit_id);
        let controlled: Vec<Location> = self.find_locations_supplied(unit_id);

        proof {
            assert forall|c: Location| #[trigger] controlled@.contains(c) <==> self.supplied(*unit_id, c) by {
                let start = self.unit_locations()[*unit_id];
                let reach = Reach::Faction(self.unit_faction(*unit_id));
                if !self.reaches_city(start, reach) {
                    assert(!controlled@.contains(c));
                }
            }
        }

        proof {
            assert(self.tiles()[0] == self.tiles@[0]@);
        }
        let height: usize = self.tiles.len();
        let width: usize = self.tiles[0].len();
        let mut visited: Vec<Vec<bool>> = unvisited(height, width);
        let mut marked: Vec<Location> = Vec::new();
        let mut i: usize = 0;

        while i < controlled.len()
            invariant
                self.wf(),
                *self == *old(self),
                forall|k: int| 0 <= k < controlled@.len() ==> self.in_bounds(#[trigger] controlled@[k]),
                controlled@.no_duplicates() || controlled@.len() == 0,
                i <= controlled@.len(),
                marked@ == controlled@.take(i as int),
                marks(rows_of(visited@), self.rows(), self.columns(), marked@),
            decreases controlled@.len() - i,
        {
            let location: Location = controlled[i];
            let ghost v0: Seq<Vec<bool>> = visited@;
            let ghost before: Seq<Location> = marked@;

            proof {
                assert(rows_of(visited@)[location.0 as int] == visited@[location.0 as int]@);
            }
            marked.push(location);
            visited[location.0][location.1] = true;
            proof {
                assert(controlled@.take(i + 1) =~= controlled@.take(i as int).push(location));
                let v = rows_of(visited@);
                assert forall|r: int| 0 <= r < self.rows() implies (#[trigger] v[r]).len() == self.columns() by {
                    assert(v[r] == visited@[r]@);
                    assert(rows_of(v0)[r] == v0[r]@);
                }
                assert forall|l: Location| l.0 < self.rows() && l.1 < self.columns() implies (v[l.0 as int][l.1 as int]
                    <==> #[trigger] marked@.contains(l)) by {
                    assert(v[l.0 as int] == visited@[l.0 as int]@);
                    assert(rows_of(v0)[l.0 as int] == v0[l.0 as int]@);
                    if marked@.contains(l) && l != location {
                        let k = choose|k: int| 0 <= k < marked@.len() && marked@[k] == l;
                        assert(before[k] == l);
                    }
                    if before.contains(l) {
                        let k = choose|k: int| 0 <= k < before.len() && before[k] == l;
                        assert(marked@[k] == l);
                    }
                    assert(marked@[marked@.len() - 1] == location);
                }
            }
            i += 1;
        }

        let ghost supplied: Seq<Location> = controlled@;
        let mut i: usize = 0;

        proof {
            assert(controlled@.take(controlled@.len() as int) =~= controlled@);
        }
        while i < controlled.len()
            invariant
                self.wf(),
                *self == *old(self),
                supplied == controlled@,
                forall|c: Location| #[trigger] supplied.contains(c) <==> self.supplied(*unit_id, c),
                forall|k: int| 0 <= k < supplied.len() ==> self.in_bounds(#[trigger] supplied[k]),
                supplied.no_duplicates(),
                i <= supplied.len(),
                supplied.is_prefix_of(marked@),
                marked@.no_duplicates(),
                forall|j: int| 0 <= j < marked@.len() ==> self.in_bounds(#[trigger] marked@[j]),
                marks(rows_of(visited@), self.rows(), self.columns(), marked@),
                forall|k: int| supplied.len() <= k < marked@.len() ==> #[trigger] self.claimable_from(supplied, marked@[k]),
                forall|k: int, b: Location| 0 <= k < i && #[trigger] self.linked(supplied[k], b, Reach::Unclaimed) ==> marked@.contains(b),
            decreases supplied.len() - i,
        {
            let location: Location = controlled[i];
            let ghost before: Seq<Location> = marked@;

            self.visit(&mut marked, &mut visited, &location, Direction::Up, Reach::Unclaimed);
            let ghost f1: Seq<Location> = marked@;
            self.visit(&mut marked, &mut visited, &location, Direction::Right, Reach::Unclaimed);
            let ghost f2: Seq<Location> = marked@;
            self.visit(&mut marked, &mut visited, &location, Direction::Left, Reach::Unclaimed);
            let ghost f3: Seq<Location> = marked@;
            self.visit(&mut marked, &mut visited, &location, Direction::Down, Reach::Unclaimed);
            proof {
                self.lemma_visit(before, f1, location, Direction::Up, Reach::Unclaimed);
                self.lemma_visit(f1, f2, location, Direction::Right, Reach::Unclaimed);
                self.lemma_visit(f2, f3, location, Direction::Left, Reach::Unclaimed);
                self.lemma_visit(f3, marked@, location, Direction::Down, Reach::Unclaimed);
                assert(before.is_prefix_of(marked@));
                assert(supplied.is_prefix_of(marked@));
                assert forall|j: int| 0 <= j < marked@.len() implies self.in_bounds(#[trigger] marked@[j]) by {
                    if j < before.len() {
                        assert(marked@[j] == before[j]);
                    } else {
                        assert(marked@.contains(marked@[j]));
                        assert(!before.contains(marked@[j]));
                    }
                }
                assert(supplied.contains(location)) by {
                    assert(supplied[i as int] == location);
                }
                assert forall|k: int| supplied.len() <= k < marked@.len() implies #[trigger] self.claimable_from(supplied, marked@[k]) by {
                    if k < before.len() {
                        assert(marked@[k] == before[k]);
                    } else {
                        assert(marked@.contains(marked@[k]));
                        assert(!before.contains(marked@[k]));
                        assert(self.linked(location, marked@[k], Reach::Unclaimed));
                    }
                }
                assert forall|k: int, b: Location| 0 <= k < i + 1 && #[trigger] self.linked(supplied[k], b, Reach::Unclaimed)
                    implies marked@.contains(b) by {
                    if k < i {
                        assert(before.contains(b));
                    } else {
                        assert(supplied[k] == location);
                        if self.next(location, Direction::Up) == Some(b) {
                            assert(f1.contains(b));
                            assert(f2.contains(b));
                            assert(f3.contains(b));
                        } else if self.next(location, Direction::Right) == Some(b) {
                            assert(f2.contains(b));
                            assert(f3.contains(b));
                        } else if self.next(location, Direction::Left) == Some(b) {
                            assert(f3.contains(b));
                        }
                    }
                }
            }
            i += 1;
        }

        proof {
            self.lemma_claimed(*unit_id, supplied, marked@);
        }

        let mut k: usize = controlled.len();

        while k < marked.len()
            invariant
                self.wf(),
                old(self).wf(),
                old(self).same_ground(self),
                old(self).same_units(self),
                supplied.len() <= k <= marked@.len(),
                supplied == controlled@,
                forall|j: int| 0 <= j < marked@.len() ==> old(self).in_bounds(#[trigger] marked@[j]),
                forall|l: Location| #[trigger] marked@.subrange(supplied.len() as int, marked@.len() as int).contains(l)
                    <==> old(self).claimed(*unit_id, l),
                faction_id == old(self).unit_faction(*unit_id),
                self.factions() == if k > supplied.len() { old(self).factions().insert(faction_id) } else { old(self).factions() },
                self.location_factions() == Map::new(
                    |l: Location| old(self).location_factions().contains_key(l),
                    |l: Location| if marked@.subrange(supplied.len() as int, k as int).contains(l) {
                        faction_id
                    } else {
                        old(self).location_factions()[l]
                    },
                ),
            decreases marked@.len() - k,
        {
            let location: Location = marked[k];
            let ghost before: Grid = *self;
            let ghost claimed_before: Seq<Location> = marked@.subrange(supplied.len() as int, k as int);

            proof {
                assert(self.location_factions().contains_key(location));
            }
            let replaced: Option<ID> = self.faction_locations.replace(location, faction_id);

            proof {
                before.lemma_factions_insert(self, location, faction_id);
                before.lemma_units_frame(self);
                let claimed_after = marked@.subrange(supplied.len() as int, k + 1);
                assert(claimed_after =~= claimed_before.push(location));
                assert forall|l: Location| #[trigger] claimed_after.contains(l) == (claimed_before.contains(l) || l == location) by {
                    if claimed_after.contains(l) && l != location {
                        let j = choose|j: int| 0 <= j < claimed_after.len() && claimed_after[j] == l;
                        assert(claimed_before[j] == l);
                    }
                    if claimed_before.contains(l) {
                        let j = choose|j: int| 0 <= j < claimed_before.len() && claimed_before[j] == l;
                        assert(claimed_after[j] == l);
                    }
                    if l == location {
                        assert(claimed_after[claimed_after.len() - 1] == l);
                    }
                }
                assert(self.location_factions() =~= Map::new(
                    |l: Location| old(self).location_factions().contains_key(l),
                    |l: Location| if claimed_after.contains(l) { faction_id } else { old(self).location_factions()[l] },
                ));
            }
            k += 1;
        }

        proof {
            let claims = marked@.subrange(supplied.len() as int, marked@.len() as int);
            assert(marked@.subrange(supplied.len() as int, k as int) == claims);
            if exists|l: Location| #[trigger] old(self).claimed(*unit_id, l) {
                let l = choose|l: Location| #[trigger] old(self).claimed(*unit_id, l);
                assert(claims.contains(l));
                assert(k > supplied.len());
            } else if k > supplied.len() {
                assert(claims.contains(claims[0]));
            }
        }
    }

    /// The locations a unit on `from` can reach with `mov` movement points: `from` itself and,
    /// for each direction, what it can reach from the location one move away with the points
    /// left after paying that move's cost.
    pub open spec fn movable(&self, from: Location, mov: nat) -> Set<Location>
        decreases mov, 1nat,
    {
        set![from]
            .union(self.movable_branch(from, Direction::Up, mov))
            .union(self.movable_branch(from, Direction::Right, mov))
            .union(self.movable_branch(from, Direction::Left, mov))
            .union(self.movable_branch(from, Direction::Down, mov))
    }

    /// What a unit on `from` can reach with `mov` movement points by first moving in `direction`.
    pub open spec fn movable_branch(&self, from: Location, direction: Direction, mov: nat) -> Set<Location>
        decreases mov, 0nat,
    {
        match self.step(from, direction) {
            Some((n, cost)) => if cost <= mov {
                self.movable(n, (mov - cost) as nat)
            } else {
                Set::empty()
            },
            None => Set::empty(),
        }
    }

    /// Marks, besides what `visited` marks, the locations a unit on `location` can reach with `mov`
    /// movement points.
    fn mark_movable(&self, visited: &mut Vec<Vec<bool>>, location: &Location, mov: u16)
        requires
            self.wf(),
            self.in_bounds(*location),
            rows_of(old(visited)@).len() == self.rows(),
            forall|i: int| 0 <= i < self.rows() ==> (#[trigger] rows_of(old(visited)@)[i]).len() == self.columns(),
        ensures
            rows_of(final(visited)@).len() == self.rows(),
            forall|i: int| 0 <= i < self.rows() ==> (#[trigger] rows_of(final(visited)@)[i]).len() == self.columns(),
            forall|l: Location| self.in_bounds(l) ==> (#[trigger] rows_of(final(visited)@)[l.0 as int][l.1 as int]
                <==> rows_of(old(visited)@)[l.0 as int][l.1 as int] || self.movable(*location, mov as nat).contains(l)),
        decreases mov, 1nat,
    {
        let ghost v0: Seq<Seq<bool>> = rows_of(visited@);
        let ghost raw0: Seq<Vec<bool>> = visited@;

        proof {
            assert(rows_of(visited@)[location.0 as int] == visited@[location.0 as int]@);
        }
        visited[location.0][location.1] = true;

        let ghost v1: Seq<Seq<bool>> = rows_of(visited@);

        proof {
            assert forall|i: int| 0 <= i < self.rows() implies (#[trigger] v1[i]).len() == self.columns() && (i != location.0 ==> v1[i] == v0[i]) by {
                assert(v1[i] == visited@[i]@);
                assert(v0[i] == raw0[i]@);
            }
            assert(v1[location.0 as int] == v0[location.0 as int].update(location.1 as int, true));
        }
        self.mark_branch(visited, location, Direction::Up, mov);
        let ghost v2: Seq<Seq<bool>> = rows_of(visited@);
        self.mark_branch(visited, location, Direction::Right, mov);
        let ghost v3: Seq<Seq<bool>> = rows_of(visited@);
        self.mark_branch(visited, location, Direction::Left, mov);
        let ghost v4: Seq<Seq<bool>> = rows_of(visited@);
        self.mark_branch(visited, location, Direction::Down, mov);
        proof {
            let v5 = rows_of(visited@);
            assert forall|l: Location| self.in_bounds(l) implies (#[trigger] v5[l.0 as int][l.1 as int]
                <==> v0[l.0 as int][l.1 as int] || self.movable(*location, mov as nat).contains(l)) by {
                if l.0 == location.0 {
                    assert(v1[l.0 as int][l.1 as int] == (v0[l.0 as int][l.1 as int] || l == *location));
                } else {
                    assert(v1[l.0 as int] == v0[l.0 as int]);
                }
            }
        }
    }

    /// Marks, besides what `visited` marks, what a unit on `location` can reach with `mov`
    /// movement points by first moving in `direction`.
    fn mark_branch(&self, visited: &mut Vec<Vec<bool>>, location: &Location, direction: Direction, mov: u16)
        requires
            self.wf(),
            self.in_bounds(*location),
            direction != Direction::Length,
            rows_of(old(visited)@).len() == self.rows(),
            forall|i: int| 0 <= i < self.rows() ==> (#[trigger] rows_of(old(visited)@)[i]).len() == self.columns(),
        ensures
            rows_of(final(visited)@).len() == self.rows(),
            forall|i: int| 0 <= i < self.rows() ==> (#[trigger] rows_of(final(visited)@)[i]).len() == self.columns(),
            forall|l: Location| self.in_bounds(l) ==> (#[trigger] rows_of(final(visited)@)[l.0 as int][l.1 as int]
                <==> rows_of(old(visited)@)[l.0 as int][l.1 as int] || self.movable_branch(*location, direction, mov as nat).contains(l)),
        decreases mov, 0nat,
    {
        match self.try_move(location, direction) {
            Some((n, cost)) => {
                if cost as u16 <= mov {
                    self.mark_movable(visited, &n, mov - cost as u16);
                }
            },
            None => {},
        }
    }

    /// Gets the locations `unit_id` can reach with `mov` movement points, in row-major order.
    pub fn find_unit_movable(&self, unit_id: &ID, mov: u16) -> (locations: Vec<Location>)
        requires
            self.wf(),
            self.unit_locations().contains_key(*unit_id),
        ensures
            forall|a: int, b: int| 0 <= a < b < locations@.len() ==> row_major_before(#[trigger] locations@[a], #[trigger] locations@[b]),
            forall|l: Location| #[trigger] locations@.contains(l) <==> self.in_bounds(l)
                && self.movable(self.unit_locations()[*unit_id], mov as nat).contains(l),
    {
        let location: Location = *self.get_unit_location(unit_id);

        proof {
            assert(self.tiles()[0] == self.tiles@[0]@);
        }
        let height: usize = self.tiles.len();
        let width: usize = self.tiles[0].len();
        let mut visited: Vec<Vec<bool>> = unvisited(height, width);

        proof {
            assert forall|l: Location| self.in_bounds(l) implies !rows_of(visited@)[l.0 as int][l.1 as int] by {
                assert(!Seq::<Location>::empty().contains(l));
            }
        }
        self.mark_movable(&mut visited, &location, mov);

        collect_marked(&visited, height, width)
    }

    /// Whether `search` from `location` covers `l`.
    pub open spec fn searched(&self, location: Location, search: Search, l: Location) -> bool {
        &&& self.in_bounds(l)
        &&& match search {
            Search::Single => l == location,
            Search::Radial(range) => distance(location, l) <= range,
            Search::Path(width, range, direction) => on_path(location, width as int, range as int, direction, l),
        }
    }

    /// Adds `cell` to `found` when it is on the grid and not found yet.
    fn add_cell(&self, found: &mut Vec<Location>, cell: Location)
        requires
            self.wf(),
            old(found)@.no_duplicates(),
        ensures
            final(found)@.no_duplicates(),
            forall|l: Location| #[trigger] final(found)@.contains(l) <==> old(found)@.contains(l) || (l == cell && self.in_bounds(cell)),
    {
        proof {
            assert(self.tiles()[0] == self.tiles@[0]@);
        }
        if cell.0 < self.tiles.len() && cell.1 < self.tiles[0].len() && find_key(found, &cell).is_none() {
            let ghost before: Seq<Location> = found@;

            found.push(cell);
            proof {
                assert forall|l: Location| #[trigger] found@.contains(l) <==> before.contains(l) || (l == cell && self.in_bounds(cell)) by {
                    if found@.contains(l) && l != cell {
                        let k = choose|k: int| 0 <= k < found@.len() && found@[k] == l;
                        assert(before[k] == l);
                    }
                    if before.contains(l) {
                        let k = choose|k: int| 0 <= k < before.len() && before[k] == l;
                        assert(found@[k] == l);
                    }
                    if l == cell {
                        assert(found@[found@.len() - 1] == l);
                    }
                }
            }
        }
    }

    /// Adds the cells of the grid among the first `range` cells of the ray from `start` in `direction`.
    fn add_ray(&self, found: &mut Vec<Location>, start: Location, direction: Direction, range: u8)
        requires
            self.wf(),
            old(found)@.no_duplicates(),
            start.0 + 256 <= usize::MAX,
            start.1 + 256 <= usize::MAX,
        ensures
            final(found)@.no_duplicates(),
            forall|l: Location| #[trigger] final(found)@.contains(l) <==> old(found)@.contains(l) || (self.in_bounds(l)
                && exists|k: int| 0 <= k < range && #[trigger] ray_cell((start.0 as int, start.1 as int), direction, k) == (l.0 as int, l.1 as int)),
    {
        let ghost origin: (int, int) = (start.0 as int, start.1 as int);
        let mut k: u8 = 0;

        while k < range
            invariant
                self.wf(),
                origin == (start.0 as int, start.1 as int),
                start.0 + 256 <= usize::MAX,
                start.1 + 256 <= usize::MAX,
                k <= range,
                found@.no_duplicates(),
                forall|l: Location| #[trigger] found@.contains(l) <==> old(found)@.contains(l) || (self.in_bounds(l)
                    && exists|m: int| 0 <= m < k && #[trigger] ray_cell(origin, direction, m) == (l.0 as int, l.1 as int)),
            decreases range - k,
        {
            let step: usize = k as usize;
            let cell: Location = match direction {
                Direction::Up => (start.0.saturating_sub(step), start.1),
                Direction::Right => (start.0, start.1 + step),
                Direction::Left => (start.0, start.1.saturating_sub(step)),
                Direction::Down => (start.0 + step, start.1),
                Direction::Length => start,
            };

            proof {
                assert(ray_cell(origin, direction, k as int) == (cell.0 as int, cell.1 as int));
            }
            self.add_cell(found, cell);
            proof {
                assert forall|l: Location| #[trigger] found@.contains(l) <==> old(found)@.contains(l) || (self.in_bounds(l)
                    && exists|m: int| 0 <= m < k + 1 && #[trigger] ray_cell(origin, direction, m) == (l.0 as int, l.1 as int)) by {
                    if l == cell && self.in_bounds(l) {
                        assert(ray_cell(origin, direction, k as int) == (l.0 as int, l.1 as int));
                    }
                    if self.in_bounds(l) && exists|m: int| 0 <= m < k + 1 && #[trigger] ray_cell(origin, direction, m) == (l.0 as int, l.1 as int) {
                        let m = choose|m: int| 0 <= m < k + 1 && #[trigger] ray_cell(origin, direction, m) == (l.0 as int, l.1 as int);
                        if m == k {
                            assert(l == cell);
                        }
                    }
                }
            }
            k += 1;
        }
    }

    /// Gets the locations of the grid that `search` from `location` covers, each once: the
    /// location alone; those within a distance; or those along the rays of a path.
    pub fn find_locations(&self, location: &Location, search: Search) -> (locations: Vec<Location>)
        requires
            self.wf(),
            self.in_bounds(*location),
            search matches Search::Path(_, _, d) ==> d != Direction::Length,
        ensures
            locations@.no_duplicates(),
            forall|l: Location| #[trigger] locations@.contains(l) <==> self.searched(*location, search, l),
    {
        let mut found: Vec<Location> = Vec::new();
        let location: Location = *location;

        match search {
            Search::Single => {
                self.add_cell(&mut found, location);
            },
            Search::Radial(range) => {
                let reach: usize = range as usize;
                let row_last: usize = location.0 + reach;
                let column_first: usize = location.1.saturating_sub(reach);
                let column_last: usize = location.1 + reach;
                let mut i: usize = location.0.saturating_sub(reach);

                while i <= row_last
                    invariant
                        self.wf(),
                        self.in_bounds(location),
                        row_last == location.0 + reach,
                        column_first == saturating(location.1 - reach),
                        column_last == location.1 + reach,
                        reach == range,
                        saturating(location.0 - reach) <= i <= row_last + 1,
                        found@.no_duplicates(),
                        forall|l: Location| #[trigger] found@.contains(l) <==> self.in_bounds(l) && distance(location, l) <= range && l.0 < i,
                    decreases row_last + 1 - i,
                {
                    let mut j: usize = column_first;

                    while j <= column_last
                        invariant
                            self.wf(),
                            self.in_bounds(location),
                            column_first == saturating(location.1 - reach),
                            column_last == location.1 + reach,
                            reach == range,
                            i <= row_last,
                            row_last == location.0 + reach,
                            column_first <= j <= column_last + 1,
                            found@.no_duplicates(),
                            forall|l: Location| #[trigger] found@.contains(l) <==> self.in_bounds(l) && distance(location, l) <= range
                                && (l.0 < i || l.0 == i && l.1 < j),
                        decreases column_last + 1 - j,
                    {
                        let distance_ij: usize = (if location.0 >= i { location.0 - i } else { i - location.0 }) + (if location.1 >= j {
                            location.1 - j
                        } else {
                            j - location.1
                        });

                        if distance_ij <= reach {
                            self.add_cell(&mut found, (i, j));
                        }
                        j += 1;
                    }
                    i += 1;
                }
            },
            Search::Path(width, range, direction) => {
                let mut a: u16 = 0;

                while a <= width as u16
                    invariant
                        self.wf(),
                        self.in_bounds(location),
                        direction != Direction::Length,
                        a <= width + 1,
                        found@.no_duplicates(),
                        forall|l: Location| #[trigger] found@.contains(l) <==> self.in_bounds(l)
                            && path_prefix(location, direction, range as int, a as int, l),
                    decreases width + 1 - a,
                {
                    let offset: usize = a as usize;
                    let ghost before: Seq<Location> = found@;
                    let near: Option<Location> = match direction {
                        Direction::Up => if location.0 >= 1 { Some((location.0 - 1, location.1.saturating_sub(offset))) } else { None },
                        Direction::Right => Some((location.0.saturating_sub(offset), location.1 + 1)),
                        Direction::Left => if location.1 >= 1 { Some((location.0.saturating_sub(offset), location.1 - 1)) } else { None },
                        Direction::Down => Some((location.0 + 1, location.1.saturating_sub(offset))),
                        Direction::Length => None,
                    };
                    let far: Option<Location> = match direction {
                        Direction::Up => if location.0 >= 1 { Some((location.0 - 1, location.1 + offset)) } else { None },
                        Direction::Right => Some((location.0 + offset, location.1 + 1)),
                        Direction::Left => if location.1 >= 1 { Some((location.0 + offset, location.1 - 1)) } else { None },
                        Direction::Down => Some((location.0 + 1, location.1 + offset)),
                        Direction::Length => None,
                    };

                    proof {
                        assert(match near {
                            Some(n) => path_start(location, direction, a as int, false) == Some((n.0 as int, n.1 as int)),
                            None => path_start(location, direction, a as int, false) is None,
                        });
                        assert(match far {
                            Some(n) => path_start(location, direction, a as int, true) == Some((n.0 as int, n.1 as int)),
                            None => path_start(location, direction, a as int, true) is None,
                        });
                    }
                    if let Some(start) = near {
                        self.add_ray(&mut found, start, direction, range);
                    }
                    let ghost middle: Seq<Location> = found@;
                    if let Some(start) = far {
                        self.add_ray(&mut found, start, direction, range);
                    }
                    proof {
                        self.lemma_path_step(location, direction, width, range, a as int, near, far, before, middle, found@);
                    }
                    a += 1;
                }
            },
        }

        found
    }

    /// Adding the two rays of offset `a` extends the cells found over offsets below `a` to those
    /// over offsets up to `a`.
    proof fn lemma_path_step(&self, location: Location, direction: Direction, width: u8, range: u8, a: int, near: Option<Location>,
        far: Option<Location>, before: Seq<Location>, middle: Seq<Location>, after: Seq<Location>)
        requires
            0 <= a,
            match near {
                Some(n) => path_start(location, direction, a, false) == Some((n.0 as int, n.1 as int)),
                None => path_start(location, direction, a, false) is None,
            },
            match far {
                Some(n) => path_start(location, direction, a, true) == Some((n.0 as int, n.1 as int)),
                None => path_start(location, direction, a, true) is None,
            },
            forall|l: Location| #[trigger] before.contains(l) <==> self.in_bounds(l)
                && path_prefix(location, direction, range as int, a, l),
            near is None ==> middle == before,
            near matches Some(n) ==> forall|l: Location| #[trigger] middle.contains(l) <==> before.contains(l) || (self.in_bounds(l)
                && exists|k: int| 0 <= k < range && #[trigger] ray_cell((n.0 as int, n.1 as int), direction, k) == (l.0 as int, l.1 as int)),
            far is None ==> after == middle,
            far matches Some(n) ==> forall|l: Location| #[trigger] after.contains(l) <==> middle.contains(l) || (self.in_bounds(l)
                && exists|k: int| 0 <= k < range && #[trigger] ray_cell((n.0 as int, n.1 as int), direction, k) == (l.0 as int, l.1 as int)),
        ensures
            forall|l: Location| #[trigger] after.contains(l) <==> self.in_bounds(l)
                && path_prefix(location, direction, range as int, a + 1, l),
    {
        assert forall|l: Location| #[trigger] after.contains(l) implies self.in_bounds(l)
            && path_prefix(location, direction, range as int, a + 1, l) by {
            if before.contains(l) {
                let (b, second, k) = choose|b: int, second: bool, k: int| 0 <= b < a && 0 <= k < range
                    && #[trigger] path_hits(location, direction, b, second, k, l);
                assert(path_hits(location, direction, b, second, k, l));
                assert(self.in_bounds(l));
                assert(path_prefix(location, direction, range as int, a + 1, l));
            } else if middle.contains(l) {
                assert(near is Some);
                let n = near->Some_0;
                let k = choose|k: int| 0 <= k < range && #[trigger] ray_cell((n.0 as int, n.1 as int), direction, k) == (l.0 as int, l.1 as int);
                assert(path_hits(location, direction, a, false, k, l));
                assert(self.in_bounds(l));
                assert(path_prefix(location, direction, range as int, a + 1, l));
            } else {
                assert(far is Some);
                let n = far->Some_0;
                let k = choose|k: int| 0 <= k < range && #[trigger] ray_cell((n.0 as int, n.1 as int), direction, k) == (l.0 as int, l.1 as int);
                assert(path_hits(location, direction, a, true, k, l));
                assert(self.in_bounds(l));
                assert(path_prefix(location, direction, range as int, a + 1, l));
            }
        }
        assert forall|l: Location| self.in_bounds(l) && #[trigger] path_prefix(location, direction, range as int, a + 1, l)
            implies after.contains(l) by {
            let (b, second, k) = choose|b: int, second: bool, k: int| 0 <= b < a + 1 && 0 <= k < range
                && #[trigger] path_hits(location, direction, b, second, k, l);
            if b < a {
                assert(path_hits(location, direction, b, second, k, l));
                assert(path_prefix(location, direction, range as int, a, l));
                assert(before.contains(l));
                assert(middle.contains(l));
            } else if !second {
                let n = near->Some_0;
                assert(ray_cell((n.0 as int, n.1 as int), direction, k) == (l.0 as int, l.1 as int));
                assert(middle.contains(l));
            } else {
                let n = far->Some_0;
                assert(ray_cell((n.0 as int, n.1 as int), direction, k) == (l.0 as int, l.1 as int));
            }
        }
    }

    /// Gets the units standing on the locations that `search` from `location` covers, each once.
    pub fn find_units(&self, location: &Location, search: Search) -> (unit_ids: Vec<ID>)
        requires
            self.wf(),
            self.in_bounds(*location),
            search matches Search::Path(_, _, d) ==> d != Direction::Length,
        ensures
            unit_ids@.no_duplicates(),
            forall|u: ID| #[trigger] unit_ids@.contains(u) <==> self.unit_locations().contains_key(u)
                && self.searched(*location, search, self.unit_locations()[u]),
    {
        let locations: Vec<Location> = self.find_locations(location, search);
        let mut unit_ids: Vec<ID> = Vec::new();
        let mut i: usize = 0;

        while i < locations.len()
            invariant
                self.wf(),
                locations@.no_duplicates(),
                forall|l: Location| #[trigger] locations@.contains(l) <==> self.searched(*location, search, l),
                i <= locations@.len(),
                unit_ids@.no_duplicates(),
                forall|u: ID| #[trigger] unit_ids@.contains(u) <==> self.unit_locations().contains_key(u)
                    && exists|k: int| 0 <= k < i && locations@[k] == self.unit_locations()[u],
            decreases locations@.len() - i,
        {
            let l: Location = locations[i];

            proof {
                assert(locations@.contains(l));
            }
            match self.get_location_unit(&l) {
                Some(u) => {
                    let u: ID = *u;
                    let ghost before: Seq<ID> = unit_ids@;

                    proof {
                        assert(self.unit_locations()[u] == l);
                        if unit_ids@.contains(u) {
                            let k = choose|k: int| 0 <= k < i && locations@[k] == self.unit_locations()[u];
                            assert(locations@[k] == locations@[i as int]);
                        }
                    }
                    unit_ids.push(u);
                    proof {
                        assert forall|v: ID| #[trigger] unit_ids@.contains(v) <==> self.unit_locations().contains_key(v)
                            && exists|k: int| 0 <= k < i + 1 && locations@[k] == self.unit_locations()[v] by {
                            if unit_ids@.contains(v) && v != u {
                                let k = choose|k: int| 0 <= k < unit_ids@.len() && unit_ids@[k] == v;
                                assert(before[k] == v);
                                assert(before.contains(v));
                            }
                            if v == u {
                                assert(unit_ids@[unit_ids@.len() - 1] == v);
                            }
                            if self.unit_locations().contains_key(v) && exists|k: int| 0 <= k < i + 1 && locations@[k] == self.unit_locations()[v] {
                                if v != u {
                                    let k = choose|k: int| 0 <= k < i + 1 && locations@[k] == self.unit_locations()[v];
                                    if k == i {
                                        assert(self.location_units()[self.unit_locations()[v]] == v);
                                    }
                                    assert(before.contains(v));
                                    let j = choose|j: int| 0 <= j < before.len() && before[j] == v;
                                    assert(unit_ids@[j] == v);
                                }
                            }
                        }
                    }
                },
                None => {
                    proof {
                        assert forall|v: ID| #[trigger] unit_ids@.contains(v) <==> self.unit_locations().contains_key(v)
                            && exists|k: int| 0 <= k < i + 1 && locations@[k] == self.unit_locations()[v] by {
                            if self.unit_locations().contains_key(v) && exists|k: int| 0 <= k < i + 1 && locations@[k] == self.unit_locations()[v] {
                                let k = choose|k: int| 0 <= k < i + 1 && locations@[k] == self.unit_locations()[v];
                                if k == i {
                                    assert(self.location_units().contains_key(self.unit_locations()[v]));
                                }
                            }
                        }
                    }
                },
            }
            i += 1;
        }

        proof {
            assert forall|u: ID| #[trigger] unit_ids@.contains(u) <==> self.unit_locations().contains_key(u)
                && self.searched(*location, search, self.unit_locations()[u]) by {
                if unit_ids@.contains(u) {
                    let k = choose|k: int| 0 <= k < locations@.len() && locations@[k] == self.unit_locations()[u];
                    assert(locations@.contains(locations@[k]));
                }
                if self.unit_locations().contains_key(u) && self.searched(*location, search, self.unit_locations()[u]) {
                    assert(locations@.contains(self.unit_locations()[u]));
                    let k = choose|k: int| 0 <= k < locations@.len() && locations@[k] == self.unit_locations()[u];
                }
            }
        }
        unit_ids
    }

    /// Replaces the tile at `location` by `tile`, keeping everything else.
    fn update_tile(&mut self, location: &Location, tile: Tile)
        requires
            old(self).wf(),
            old(self).in_bounds(*location),
            tile.wf(),
            tile.scene() == old(self).scene(),
        ensures
            final(self).wf(),
            final(self).scene() == old(self).scene(),
            final(self).adjacencies() == old(self).adjacencies(),
            final(self).tiles() == old(self).tiles().update(location.0 as int, old(self).tiles()[location.0 as int].update(location.1 as int, tile)),
            old(self).same_units(final(self)),
            old(self).same_factions(final(self)),
    {
        proof {
            self.lemma_tile(*location);
        }
        self.tiles[location.0][location.1] = tile;
        proof {
            assert(self.tiles() =~= old(self).tiles().update(location.0 as int, old(self).tiles()[location.0 as int].update(location.1 as int, tile)));
            old(self).lemma_wf_update_tiles(self);
        }
    }

    /// Well-formedness survives a change of tiles that keeps the rectangle, its scene and the
    /// tiles well-formed.
    proof fn lemma_wf_update_tiles(&self, other: &Grid)
        requires
            self.wf(),
            other.scene() == self.scene(),
            other.adjacencies() == self.adjacencies(),
            other.tiles().len() == self.rows(),
            forall|i: int| 0 <= i < self.rows() ==> (#[trigger] other.tiles()[i]).len() == self.columns(),
            forall|i: int, j: int| 0 <= i < self.rows() && 0 <= j < self.columns() ==> {
                &&& (#[trigger] other.tiles()[i][j]).wf()
                &&& other.tiles()[i][j].scene() == self.scene()
            },
            self.same_units(other),
            self.same_factions(other),
        ensures
            other.wf(),
    {
        assert(other.tiles()[0].len() == self.columns());
        assert forall|u: ID| #[trigger] other.unit_locations().contains_key(u) implies {
            &&& other.in_bounds(other.unit_locations()[u])
            &&& u < other.scene().unit_builders().len()
            &&& other.location_units().contains_key(other.unit_locations()[u])
            &&& other.location_units()[other.unit_locations()[u]] == u
        } by {
            assert(self.unit_locations().contains_key(u));
        }
        assert forall|l: Location| other.in_bounds(l) implies #[trigger] other.location_factions().contains_key(l) by {
            assert(self.in_bounds(l));
        }
    }

    /// Adds `appliable` to the tile at `location`; a modifier also updates the costs of moving
    /// onto that tile. The result says whether it took effect.
    pub fn add_appliable(&mut self, location: &Location, appliable: AppliableBox) -> (is_added: bool)
        requires
            old(self).wf(),
            old(self).in_bounds(*location),
            old(self).tile(*location).accepts(appliable),
        ensures
            final(self).wf(),
            is_added,
            final(self).scene() == old(self).scene(),
            old(self).same_units(final(self)),
            old(self).same_factions(final(self)),
            old(self).tile(*location).added(&final(self).tile(*location), appliable),
            forall|l: Location| old(self).in_bounds(l) && l != *location ==> #[trigger] final(self).tile(l) == old(self).tile(l),
            final(self).rows() == old(self).rows(),
            final(self).columns() == old(self).columns(),
            forall|l: Location, e: Direction| old(self).in_bounds(l) && e != Direction::Length ==> #[trigger] final(self).cost(l, e)
                == if appliable is Modifier && old(self).next(l, e) == Some(*location) {
                    old(self).tile(l).cost_to(&final(self).tile(*location))
                } else {
                    old(self).cost(l, e)
                },
    {
        proof {
            self.lemma_tile(*location);
        }
        let kind: AppliableKind = appliable.kind();
        let ghost before: Grid = *self;
        let is_added: bool = self.tiles[location.0][location.1].add_appliable(appliable);

        proof {
            assert forall|i: int| 0 <= i < before.rows() implies (#[trigger] self.tiles()[i]).len() == before.columns()
                && (i != location.0 ==> self.tiles()[i] == before.tiles()[i]) by {
                assert(self.tiles()[i] == self.tiles@[i]@);
                assert(before.tiles()[i] == before.tiles@[i]@);
            }
            assert forall|i: int, j: int| 0 <= i < before.rows() && 0 <= j < before.columns() implies {
                &&& (#[trigger] self.tiles()[i][j]).wf()
                &&& self.tiles()[i][j].scene() == before.scene()
            } by {
                assert(self.tiles()[i] == self.tiles@[i]@);
                assert(before.tiles()[i] == before.tiles@[i]@);
                if i != location.0 || j != location.1 {
                    assert(before.tiles()[i][j].wf());
                }
            }
            before.lemma_wf_update_tiles(self);
            assert forall|l: Location| before.in_bounds(l) && l != *location implies #[trigger] self.tile(l) == before.tile(l) by {
                assert(self.tiles()[l.0 as int] == self.tiles@[l.0 as int]@);
                assert(before.tiles()[l.0 as int] == before.tiles@[l.0 as int]@);
            }
        }
        match kind {
            AppliableKind::Modifier(..) => {
                self.update_adjacency(location);
            },
            _ => {},
        }

        is_added
    }

    /// Gets the city on the tile at `location`.
    pub fn get_city_id(&self, location: &Location) -> (city_id: Option<ID>)
        requires
            self.wf(),
            self.in_bounds(*location),
        ensures
            city_id == self.tile(*location).city(),
    {
        proof {
            self.lemma_tile(*location);
        }
        self.tiles[location.0][location.1].get_city_id()
    }

    /// Gets the terrain of the tile at `location`.
    pub fn get_terrain_id(&self, location: &Location) -> (terrain_id: ID)
        requires
            self.wf(),
            self.in_bounds(*location),
        ensures
            terrain_id == self.tile(*location).terrain(),
    {
        proof {
            self.lemma_tile(*location);
        }
        self.tiles[location.0][location.1].get_terrain_id()
    }

    /// Gets the modifier on the tile at `location`.
    pub fn get_modifier(&self, location: &Location) -> (modifier: Option<Modifier>)
        requires
            self.wf(),
            self.in_bounds(*location),
        ensures
            modifier == self.tile(*location).modifier(),
    {
        proof {
            self.lemma_tile(*location);
        }
        self.tiles[location.0][location.1].get_modifier()
    }

    /// Gets the change that the tile at `location` yields, if it has an attribute.
    pub fn try_yield_appliable(&self, location: &Location) -> (appliable: Option<AppliableBox>)
        requires
            self.wf(),
            self.in_bounds(*location),
        ensures
            appliable == match self.tile(*location).attribute() {
                Some(a) => Some(self.scene().appliable_of(a.appliable_kind())),
                None => None::<AppliableBox>,
            },
    {
        proof {
            self.lemma_tile(*location);
        }
        self.tiles[location.0][location.1].try_yield_appliable(share_scene(&self.scene))
    }

    /// Gets whether the recruit of the city at `location` has been spawned.
    pub fn is_recruited(&self, location: &Location) -> (is_recruited: bool)
        requires
            self.wf(),
            self.in_bounds(*location),
        ensures
            is_recruited == self.tile(*location).recruited(),
    {
        proof {
            self.lemma_tile(*location);
        }
        self.tiles[location.0][location.1].is_recruited()
    }

    /// Gets the tile at `location`.
    pub fn get_tile(&self, location: &Location) -> (tile: &Tile)
        requires
            self.wf(),
            self.in_bounds(*location),
        ensures
            *tile == self.tile(*location),
    {
        proof {
            self.lemma_tile(*location);
        }
        &self.tiles[location.0][location.1]
    }

    /// Replaces the tiles, keeping the costs, the units and the factions; the new tiles must
    /// form a rectangle of the same size of well-formed tiles of the map's scene.
    pub fn set_tiles(&mut self, tiles: Vec<Vec<Tile>>)
        requires
            old(self).wf(),
            rows_of(tiles@).len() == old(self).rows(),
            forall|i: int| 0 <= i < old(self).rows() ==> (#[trigger] rows_of(tiles@)[i]).len() == old(self).columns(),
            forall|i: int, j: int| 0 <= i < old(self).rows() && 0 <= j < old(self).columns() ==> {
                &&& (#[trigger] rows_of(tiles@)[i][j]).wf()
                &&& rows_of(tiles@)[i][j].scene() == old(self).scene()
            },
        ensures
            final(self).wf(),
            final(self).tiles() == rows_of(tiles@),
            final(self).scene() == old(self).scene(),
            final(self).adjacencies() == old(self).adjacencies(),
            old(self).same_units(final(self)),
            old(self).same_factions(final(self)),
    {
        self.tiles = tiles;
        proof {
            old(self).lemma_wf_update_tiles(self);
        }
    }

    /// Whether the turn of `unit_id` wears down `tile`: the unit applied its modifier or, when it
    /// has none, its attribute.
    pub open spec fn wears(tile: Tile, unit_id: ID) -> bool {
        match tile.applier_modifier() {
            Some(a) => a == unit_id,
            None => tile.applier_attribute() == Some(unit_id),
        }
    }

    /// Decrements the durations on every tile that the turn of `unit_id` wears down.
    pub fn decrement_durations(&mut self, unit_id: &ID)
        requires
            old(self).wf(),
        ensures
            final(self).wf(),
            final(self).scene() == old(self).scene(),
            final(self).adjacencies() == old(self).adjacencies(),
            old(self).same_units(final(self)),
            old(self).same_factions(final(self)),
            final(self).rows() == old(self).rows(),
            final(self).columns() == old(self).columns(),
            forall|l: Location| old(self).in_bounds(l) ==> if Self::wears(old(self).tile(l), *unit_id) {
                old(self).tile(l).decremented(&final(self).tile(l))
            } else {
                #[trigger] final(self).tile(l) == old(self).tile(l)
            },
    {
        proof {
            assert(self.tiles()[0] == self.tiles@[0]@);
        }
        let height: usize = self.tiles.len();
        let width: usize = self.tiles[0].len();
        let mut i: usize = 0;

        while i < height
            invariant
                self.wf(),
                old(self).wf(),
                height == old(self).rows(),
                width == old(self).columns(),
                self.rows() == old(self).rows(),
                self.columns() == old(self).columns(),
                self.scene() == old(self).scene(),
                self.adjacencies() == old(self).adjacencies(),
                old(self).same_units(self),
                old(self).same_factions(self),
                i <= height,
                forall|l: Location| old(self).in_bounds(l) ==> if l.0 < i && Self::wears(old(self).tile(l), *unit_id) {
                    old(self).tile(l).decremented(&self.tile(l))
                } else {
                    #[trigger] self.tile(l) == old(self).tile(l)
                },
            decreases height - i,
        {
            let mut j: usize = 0;

            while j < width
                invariant
                    self.wf(),
                    old(self).wf(),
                    height == old(self).rows(),
                    width == old(self).columns(),
                    self.rows() == old(self).rows(),
                    self.columns() == old(self).columns(),
                    self.scene() == old(self).scene(),
                    self.adjacencies() == old(self).adjacencies(),
                    old(self).same_units(self),
                    old(self).same_factions(self),
                    i < height,
                    j <= width,
                    forall|l: Location| old(self).in_bounds(l) ==> if (l.0 < i || l.0 == i && l.1 < j) && Self::wears(old(self).tile(l), *unit_id) {
                        old(self).tile(l).decremented(&self.tile(l))
                    } else {
                        #[trigger] self.tile(l) == old(self).tile(l)
                    },
                decreases width - j,
            {
                proof {
                    self.lemma_tile((i, j));
                    assert(self.tile((i, j)) == old(self).tile((i, j)));
                }
                let is_worn: bool = match self.tiles[i][j].get_applier_id_modifier() {
                    Some(a) => a == *unit_id,
                    None => match self.tiles[i][j].get_applier_id_attribute() {
                        Some(a) => a == *unit_id,
                        None => false,
                    },
                };

                if is_worn {
                    let ghost before: Grid = *self;

                    self.tiles[i][j].decrement_durations();
                    proof {
                        assert forall|r: int| 0 <= r < before.rows() implies (#[trigger] self.tiles()[r]).len() == before.columns()
                            && (r != i ==> self.tiles()[r] == before.tiles()[r]) by {
                            assert(self.tiles()[r] == self.tiles@[r]@);
                            assert(before.tiles()[r] == before.tiles@[r]@);
                        }
                        assert forall|r: int, c: int| 0 <= r < before.rows() && 0 <= c < before.columns() implies {
                            &&& (#[trigger] self.tiles()[r][c]).wf()
                            &&& self.tiles()[r][c].scene() == before.scene()
                        } by {
                            assert(self.tiles()[r] == self.tiles@[r]@);
                            assert(before.tiles()[r] == before.tiles@[r]@);
                            if r != i || c != j {
                                assert(before.tiles()[r][c].wf());
                            }
                        }
                        before.lemma_wf_update_tiles(self);
                        assert forall|l: Location| old(self).in_bounds(l) implies if (l.0 < i || l.0 == i && l.1 < j + 1)
                            && Self::wears(old(self).tile(l), *unit_id) {
                            old(self).tile(l).decremented(&self.tile(l))
                        } else {
                            #[trigger] self.tile(l) == old(self).tile(l)
                        } by {
                            assert(self.tiles()[l.0 as int] == self.tiles@[l.0 as int]@);
                            assert(before.tiles()[l.0 as int] == before.tiles@[l.0 as int]@);
                            if l != (i, j) {
                                assert(self.tile(l) == before.tile(l));
                            }
                        }
                    }
                }
                j += 1;
            }
            i += 1;
        }
    }

    /// The unit that the city at `location` would spawn for `faction_id`: its recruit, when the
    /// city has one of that faction and has not spawned it yet.
    pub open spec fn recruit_for(&self, location: Location, faction_id: ID) -> Option<ID> {
        let tile = self.tile(location);
        match tile.city() {
            Some(c) => if tile.recruited() {
                None
            } else {
                match self.scene().cities()[c as int].recruit() {
                    Some(u) => if self.unit_faction(u) == faction_id { Some(u) } else { None },
                    None => None,
                }
            },
            None => None,
        }
    }

    /// Spawns the recruit of the city at `location` for `faction_id` on the nearest placeable
    /// location and marks the city as having spawned it; returns the recruit and the terrain it
    /// stands on, or `None`, with nothing changed, when the city has no recruit to spawn for
    /// that faction. The recruit must not stand on the map yet, and some location must be
    /// placeable.
    pub fn try_spawn_recruit(&mut self, location: Location, faction_id: &ID) -> (spawned: Option<(ID, ID)>)
        requires
            old(self).wf(),
            old(self).in_bounds(location),
            old(self).recruit_for(location, *faction_id) matches Some(u) ==> {
                &&& !old(self).unit_locations().contains_key(u)
                &&& exists|l: Location| old(self).in_bounds(l) && #[trigger] old(self).placeable(l)
            },
        ensures
            final(self).wf(),
            final(self).scene() == old(self).scene(),
            final(self).adjacencies() == old(self).adjacencies(),
            final(self).passable() == old(self).passable(),
            old(self).recruit_for(location, *faction_id) is None ==> {
                &&& spawned == None::<(ID, ID)>
                &&& old(self).same_ground(final(self))
                &&& old(self).same_units(final(self))
                &&& old(self).same_factions(final(self))
            },
            old(self).recruit_for(location, *faction_id) matches Some(u) ==> exists|spawn: Location| {
                &&& old(self).in_bounds(spawn)
                &&& #[trigger] old(self).placeable(spawn)
                &&& forall|l: Location| old(self).in_bounds(l) && #[trigger] old(self).placeable(l)
                    ==> distance(location, spawn) <= distance(location, l)
                &&& spawned == Some((u, old(self).tile(spawn).terrain()))
                &&& final(self).unit_locations() == if old(self).location_units().contains_key(spawn) {
                    old(self).unit_locations()
                } else {
                    old(self).unit_locations().insert(u, spawn)
                }
                &&& final(self).location_units() == if old(self).location_units().contains_key(spawn) {
                    old(self).location_units()
                } else {
                    old(self).location_units().insert(spawn, u)
                }
                &&& final(self).factions() == old(self).factions().insert(*faction_id)
                &&& final(self).location_factions() == old(self).location_factions().insert(spawn, *faction_id)
                &&& old(self).tile(location).with_recruited(&final(self).tile(location))
                &&& forall|l: Location| old(self).in_bounds(l) && l != location ==> #[trigger] final(self).tile(l) == old(self).tile(l)
            },
    {
        proof {
            self.lemma_tile(location);
        }
        let city_id: ID = match self.tiles[location.0][location.1].get_city_id() {
            Some(c) => c,
            None => {
                return None;
            },
        };

        if self.tiles[location.0][location.1].is_recruited() {
            return None;
        }
        let recruit_id: ID = match self.scene.get_city(&city_id).get_recruit_id() {
            Some(u) => u,
            None => {
                return None;
            },
        };
        let faction_id_recruit: ID = self.get_unit_faction(&recruit_id);

        if faction_id_recruit != *faction_id {
            return None;
        }
        let spawn: Location = self.find_nearest_placeable(&location);
        let terrain_id: ID = match self.place_unit(recruit_id, spawn) {
            Some(t) => t,
            None => {
                return None;
            },
        };
        let ghost before: Grid = *self;

        proof {
            self.lemma_tile(location);
        }
        self.tiles[location.0][location.1].set_recruited(true);
        proof {
            assert forall|r: int| 0 <= r < before.rows() implies (#[trigger] self.tiles()[r]).len() == before.columns()
                && (r != location.0 ==> self.tiles()[r] == before.tiles()[r]) by {
                assert(self.tiles()[r] == self.tiles@[r]@);
                assert(before.tiles()[r] == before.tiles@[r]@);
            }
            assert forall|r: int, c: int| 0 <= r < before.rows() && 0 <= c < before.columns() implies {
                &&& (#[trigger] self.tiles()[r][c]).wf()
                &&& self.tiles()[r][c].scene() == before.scene()
            } by {
                assert(self.tiles()[r] == self.tiles@[r]@);
                assert(before.tiles()[r] == before.tiles@[r]@);
                if r != location.0 || c != location.1 {
                    assert(before.tiles()[r][c].wf());
                }
            }
            before.lemma_wf_update_tiles(self);
            assert forall|l: Location| before.in_bounds(l) && l != location implies #[trigger] self.tile(l) == before.tile(l) by {
                assert(self.tiles()[l.0 as int] == self.tiles@[l.0 as int]@);
                assert(before.tiles()[l.0 as int] == before.tiles@[l.0 as int]@);
            }
        }

        Some((recruit_id, terrain_id))
    }

    /// Gets the distance between two units, moving along rows and columns.
    pub fn find_distance_between(&self, unit_id_first: &ID, unit_id_second: &ID) -> (between: usize)
        requires
            self.wf(),
            self.unit_locations().contains_key(*unit_id_first),
            self.unit_locations().contains_key(*unit_id_second),
        ensures
            between == distance(self.unit_locations()[*unit_id_first], self.unit_locations()[*unit_id_second]),
    {
        let first: Location = *self.get_unit_location(unit_id_first);
        let second: Location = *self.get_unit_location(unit_id_second);
        let rows: usize = if first.0 >= second.0 { first.0 - second.0 } else { second.0 - first.0 };
        let columns: usize = if first.1 >= second.1 { first.1 - second.1 } else { second.1 - first.1 };

        rows + columns
    }

    /// Whether `b` neighbours `a` on the grid.
    pub open spec fn adjacent(&self, a: Location, b: Location) -> bool {
        ||| self.next(a, Direction::Up) == Some(b)
        ||| self.next(a, Direction::Right) == Some(b)
        ||| self.next(a, Direction::Left) == Some(b)
        ||| self.next(a, Direction::Down) == Some(b)
    }

    /// Whether a search may go from `a` on to `b`: `b` neighbours `a` and, when a reach is
    /// given, that reach controls `b`.
    pub open spec fn linked(&self, a: Location, b: Location, reach: Reach) -> bool {
        &&& self.in_bounds(a)
        &&& self.adjacent(a, b)
        &&& self.admits(b, reach)
    }

    /// Whether `path` is a search path: it starts on the grid and each location is linked to the next.
    pub open spec fn is_path(&self, path: Seq<Location>, reach: Reach) -> bool {
        &&& path.len() > 0
        &&& self.in_bounds(path[0])
        &&& forall|i: int| 0 <= i < path.len() - 1 ==> #[trigger] self.linked(path[i], path[i + 1], reach)
    }

    /// Whether a search from `start` reaches `target`.
    pub open spec fn connected(&self, start: Location, target: Location, reach: Reach) -> bool {
        exists|path: Seq<Location>| #[trigger] self.is_path(path, reach) && path[0] == start && path.last() == target
    }

    /// A search reaches its start.
    pub proof fn lemma_connected_start(&self, start: Location, reach: Reach)
        requires
            self.in_bounds(start),
        ensures
            self.connected(start, start, reach),
    {
        let path: Seq<Location> = seq![start];
        assert(self.is_path(path, reach));
    }

    /// A search that reaches `a` reaches what `a` is linked to.
    pub proof fn lemma_connected_extend(&self, start: Location, a: Location, b: Location, reach: Reach)
        requires
            self.connected(start, a, reach),
            self.linked(a, b, reach),
        ensures
            self.connected(start, b, reach),
    {
        let path = choose|path: Seq<Location>| #[trigger] self.is_path(path, reach) && path[0] == start && path.last() == a;
        let longer = path.push(b);
        assert forall|i: int| 0 <= i < longer.len() - 1 implies #[trigger] self.linked(longer[i], longer[i + 1], reach) by {
            if i < path.len() - 1 {
                assert(longer[i] == path[i] && longer[i + 1] == path[i + 1]);
            }
        }
        assert(self.is_path(longer, reach));
    }

    /// A set of locations that holds `start` and is closed under links holds all that a search
    /// from `start` reaches.
    pub proof fn lemma_closed_reaches(&self, found: Seq<Location>, start: Location, target: Location, reach: Reach)
        requires
            found.contains(start),
            forall|a: Location, b: Location| found.contains(a) && #[trigger] self.linked(a, b, reach) ==> found.contains(b),
            self.connected(start, target, reach),
        ensures
            found.contains(target),
    {
        let path = choose|path: Seq<Location>| #[trigger] self.is_path(path, reach) && path[0] == start && path.last() == target;
        self.lemma_path_found(found, path, reach, path.len() - 1);
    }

    /// Every location of a path from a location of a set closed under links is in the set.
    proof fn lemma_path_found(&self, found: Seq<Location>, path: Seq<Location>, reach: Reach, i: int)
        requires
            self.is_path(path, reach),
            found.contains(path[0]),
            forall|a: Location, b: Location| found.contains(a) && #[trigger] self.linked(a, b, reach) ==> found.contains(b),
            0 <= i < path.len(),
        ensures
            found.contains(path[i]),
        decreases i,
    {
        if i > 0 {
            self.lemma_path_found(found, path, reach, i - 1);
            let j = i - 1;
            assert(self.linked(path[j], path[j + 1], reach));
        }
    }

    /// Without a reach, a search from a location of the grid reaches every location of the grid.
    pub proof fn lemma_grid_connected(&self, start: Location, target: Location)
        requires
            self.in_bounds(start),
            self.in_bounds(target),
        ensures
            self.connected(start, target, Reach::Anywhere),
        decreases (if start.0 >= target.0 { start.0 - target.0 } else { target.0 - start.0 }) + (if start.1
            >= target.1 { start.1 - target.1 } else { target.1 - start.1 }),
    {
        if start == target {
            self.lemma_connected_start(start, Reach::Anywhere);
        } else {
            let previous: Location = if target.0 > start.0 {
                ((target.0 - 1) as usize, target.1)
            } else if target.0 < start.0 {
                ((target.0 + 1) as usize, target.1)
            } else if target.1 > start.1 {
                (target.0, (target.1 - 1) as usize)
            } else {
                (target.0, (target.1 + 1) as usize)
            };
            self.lemma_grid_connected(start, previous);
            assert(self.linked(previous, target, Reach::Anywhere));
            self.lemma_connected_extend(start, previous, target, Reach::Anywhere);
        }
    }
}

/// Whether `visited` is a rectangle of `rows` by `columns` that marks exactly the locations of `found`.
pub open spec fn marks(visited: Seq<Seq<bool>>, rows: int, columns: int, found: Seq<Location>) -> bool {
    &&& visited.len() == rows
    &&& forall|i: int| 0 <= i < rows ==> (#[trigger] visited[i]).len() == columns
    &&& forall|l: Location| l.0 < rows && l.1 < columns ==> (visited[l.0 as int][l.1 as int] <==> #[trigger] found.contains(l))
}

/// A rectangle of `rows` by `columns` marking nothing.
fn unvisited(rows: usize, columns: usize) -> (visited: Vec<Vec<bool>>)
    ensures
        marks(rows_of(visited@), rows as int, columns as int, Seq::<Location>::empty()),
{
    let mut visited: Vec<Vec<bool>> = Vec::new();
    let mut i: usize = 0;

    while i < rows
        invariant
            i <= rows,
            visited@.len() == i,
            forall|r: int| 0 <= r < i ==> (#[trigger] visited@[r])@.len() == columns,
            forall|r: int, c: int| 0 <= r < i && 0 <= c < columns ==> !(#[trigger] visited@[r]@[c]),
        decreases rows - i,
    {
        let mut row: Vec<bool> = Vec::new();
        let mut j: usize = 0;

        while j < columns
            invariant
                j <= columns,
                row@.len() == j,
                forall|c: int| 0 <= c < j ==> !(#[trigger] row@[c]),
            decreases columns - j,
        {
            row.push(false);
            j += 1;
        }
        visited.push(row);
        i += 1;
    }

    proof {
        let v = rows_of(visited@);
        assert forall|r: int| 0 <= r < rows implies (#[trigger] v[r]).len() == columns by {
            assert(v[r] == visited@[r]@);
        }
        assert forall|l: Location| l.0 < rows && l.1 < columns implies (v[l.0 as int][l.1 as int]
            <==> #[trigger] Seq::<Location>::empty().contains(l)) by {
            assert(v[l.0 as int] == visited@[l.0 as int]@);
        }
    }
    visited
}

/// Whether `a` comes before `b` in row-major order.
pub open spec fn row_major_before(a: Location, b: Location) -> bool {
    a.0 < b.0 || (a.0 == b.0 && a.1 < b.1)
}

/// The locations that `visited` marks, in row-major order.
fn collect_marked(visited: &Vec<Vec<bool>>, rows: usize, columns: usize) -> (marked: Vec<Location>)
    requires
        rows_of(visited@).len() == rows,
        forall|i: int| 0 <= i < rows ==> (#[trigger] rows_of(visited@)[i]).len() == columns,
    ensures
        forall|a: int, b: int| 0 <= a < b < marked@.len() ==> row_major_before(#[trigger] marked@[a], #[trigger] marked@[b]),
        forall|l: Location| #[trigger] marked@.contains(l) <==> l.0 < rows && l.1 < columns && rows_of(visited@)[l.0 as int][l.1 as int],
{
    let ghost v: Seq<Seq<bool>> = rows_of(visited@);
    let mut marked: Vec<Location> = Vec::new();
    let mut i: usize = 0;

    while i < rows
        invariant
            v == rows_of(visited@),
            v.len() == rows,
            forall|r: int| 0 <= r < rows ==> (#[trigger] v[r]).len() == columns,
            i <= rows,
            forall|a: int, b: int| 0 <= a < b < marked@.len() ==> row_major_before(#[trigger] marked@[a], #[trigger] marked@[b]),
            forall|a: int| 0 <= a < marked@.len() ==> (#[trigger] marked@[a]).0 < i,
            forall|l: Location| #[trigger] marked@.contains(l) <==> l.0 < i && l.1 < columns && v[l.0 as int][l.1 as int],
        decreases rows - i,
    {
        let mut j: usize = 0;

        assert(v[i as int] == visited@[i as int]@);
        while j < columns
            invariant
                v == rows_of(visited@),
                v.len() == rows,
                forall|r: int| 0 <= r < rows ==> (#[trigger] v[r]).len() == columns,
                i < rows,
                j <= columns,
                v[i as int] == visited@[i as int]@,
                forall|a: int, b: int| 0 <= a < b < marked@.len() ==> row_major_before(#[trigger] marked@[a], #[trigger] marked@[b]),
                forall|a: int| 0 <= a < marked@.len() ==> row_major_before(#[trigger] marked@[a], (i, j)),
                forall|l: Location| #[trigger] marked@.contains(l) <==> (l.0 < i && l.1 < columns || l.0 == i && l.1 < j)
                    && v[l.0 as int][l.1 as int],
            decreases columns - j,
        {
            if visited[i][j] {
                let ghost before: Seq<Location> = marked@;

                marked.push((i, j));
                proof {
                    assert forall|l: Location| #[trigger] marked@.contains(l) <==> (l.0 < i && l.1 < columns || l.0 == i && l.1 < j + 1)
                        && v[l.0 as int][l.1 as int] by {
                        if marked@.contains(l) && l != (i, j) {
                            let k = choose|k: int| 0 <= k < marked@.len() && marked@[k] == l;
                            assert(before[k] == l);
                            assert(before.contains(l));
                        }
                        if (l.0 < i && l.1 < columns || l.0 == i && l.1 < j) && v[l.0 as int][l.1 as int] {
                            assert(before.contains(l));
                            let k = choose|k: int| 0 <= k < before.len() && before[k] == l;
                            assert(marked@[k] == l);
                        }
                        if l == (i, j) {
                            assert(marked@[marked@.len() - 1] == l);
                        }
                    }
                }
            } else {
                proof {
                    assert forall|l: Location| #[trigger] marked@.contains(l) <==> (l.0 < i && l.1 < columns || l.0 == i && l.1 < j + 1)
                        && v[l.0 as int][l.1 as int] by {
                        if l == (i, j) {
                            assert(!v[l.0 as int][l.1 as int]);
                        }
                    }
                }
            }
            j += 1;
        }
        i += 1;
    }

    marked
}

/// `x` lowered by `y`, but not below zero.
pub open spec fn saturating(x: int) -> int {
    if x < 0 { 0 } else { x }
}

/// The distance between two locations, moving along rows and columns.
pub open spec fn distance(a: Location, b: Location) -> int {
    (if a.0 >= b.0 { a.0 - b.0 } else { b.0 - a.0 }) + (if a.1 >= b.1 { a.1 - b.1 } else { b.1 - a.1 })
}

/// Where a path of `direction` out of `location` starts at offset `a`, on the near side (or,
/// when `second`, the far side); none when the path would start off the grid's top or left edge.
pub open spec fn path_start(location: Location, direction: Direction, a: int, second: bool) -> Option<(int, int)> {
    let (l0, l1) = (location.0 as int, location.1 as int);
    match direction {
        Direction::Up => if l0 >= 1 { Some((l0 - 1, if second { l1 + a } else { saturating(l1 - a) })) } else { None },
        Direction::Right => Some((if second { l0 + a } else { saturating(l0 - a) }, l1 + 1)),
        Direction::Left => if l1 >= 1 { Some((if second { l0 + a } else { saturating(l0 - a) }, l1 - 1)) } else { None },
        Direction::Down => Some((l0 + 1, if second { l1 + a } else { saturating(l1 - a) })),
        Direction::Length => None,
    }
}

/// The cell `k` steps from `start` in `direction`, stopping at the grid's top and left edges.
pub open spec fn ray_cell(start: (int, int), direction: Direction, k: int) -> (int, int) {
    match direction {
        Direction::Up => (saturating(start.0 - k), start.1),
        Direction::Right => (start.0, start.1 + k),
        Direction::Left => (start.0, saturating(start.1 - k)),
        Direction::Down => (start.0 + k, start.1),
        Direction::Length => start,
    }
}

/// Whether the ray of offset `a` and side `second` of a path of `direction` out of `location`
/// reaches `l` in `k` steps.
pub open spec fn path_hits(location: Location, direction: Direction, a: int, second: bool, k: int, l: Location) -> bool {
    match path_start(location, direction, a, second) {
        Some(s) => ray_cell(s, direction, k) == (l.0 as int, l.1 as int),
        None => false,
    }
}

/// Whether `l` is one of the first `range` cells of a ray of offset below `a` of a path of
/// `direction` out of `location`.
pub open spec fn path_prefix(location: Location, direction: Direction, range: int, a: int, l: Location) -> bool {
    exists|b: int, second: bool, k: int| 0 <= b < a && 0 <= k < range && #[trigger] path_hits(location, direction, b, second, k, l)
}

/// Whether `l` is one of the first `range` cells of a ray that starts `width` or fewer cells
/// aside from the cell next to `location` in `direction`.
pub open spec fn on_path(location: Location, width: int, range: int, direction: Direction, l: Location) -> bool {
    exists|a: int, second: bool, k: int| 0 <= a <= width && 0 <= k < range && #[trigger] path_hits(location, direction, a, second, k, l)
}

/// A sequence of distinct locations of a grid of `rows` by `columns` is no longer than the grid has cells.
proof fn lemma_cells_bound(cells: Seq<Location>, rows: int, columns: int)
    requires
        cells.no_duplicates(),
        forall|i: int| 0 <= i < cells.len() ==> (#[trigger] cells[i]).0 < rows && cells[i].1 < columns,
        columns > 0,
        rows >= 0,
    ensures
        cells.len() <= rows * columns,
{
    let set = cells.to_set();
    let index = |l: Location| l.0 * columns + l.1;
    cells.unique_seq_to_set();
    vstd::seq_lib::seq_to_set_is_finite(cells);
    assert(set.finite());
    assert(vstd::relations::injective_on(index, set)) by {
        assert forall|a: Location, b: Location| set.contains(a) && set.contains(b) && #[trigger] index(a) == #[trigger] index(b)
            implies a == b by {
            let (a0, a1, b0, b1): (int, int, int, int) = (a.0 as int, a.1 as int, b.0 as int, b.1 as int);
            assert(a1 < columns && b1 < columns);
            assert(a0 == b0) by (nonlinear_arith)
                requires
                    a0 * columns + a1 == b0 * columns + b1,
                    0 <= a1 < columns,
                    0 <= b1 < columns,
                    a0 >= 0,
                    b0 >= 0,
            ;
        }
    }
    vstd::set_lib::lemma_map_size(set, set.map(index), index);
    assert(set.map(index).subset_of(vstd::set_lib::set_int_range(0, rows * columns))) by {
        assert forall|k: int| #[trigger] set.map(index).contains(k) implies vstd::set_lib::set_int_range(0, rows * columns).contains(k) by {
            let l = choose|l: Location| set.contains(l) && index(l) == k;
            let (l0, l1): (int, int) = (l.0 as int, l.1 as int);
            assert(l0 < rows && l1 < columns);
            assert(0 <= l0 * columns + l1 < rows * columns) by (nonlinear_arith)
                requires
                    0 <= l0 < rows,
                    0 <= l1 < columns,
            ;
        }
    }
    assert(rows * columns >= 0) by (nonlinear_arith)
        requires
            rows >= 0,
            columns > 0,
    ;
    vstd::set_lib::lemma_int_range(0, rows * columns);
    vstd::set_lib::lemma_len_subset(set.map(index), vstd::set_lib::set_int_range(0, rows * columns));
}

/// Distance is symmetric, zero from a location to itself, and obeys the triangle inequality.
pub proof fn law_distance(a: Location, b: Location, c: Location)
    ensures
        distance(a, b) == distance(b, a),
        distance(a, a) == 0,
        distance(a, b) >= 0,
        distance(a, c) <= distance(a, b) + distance(b, c),
{
}

/// Going one step and back in the opposite direction returns to the start.
pub proof fn law_neighbour_opposite(rows: int, columns: int, location: Location, direction: Direction)
    requires
        location.0 < rows <= usize::MAX,
        location.1 < columns <= usize::MAX,
    ensures
        opposite(opposite(direction)) == direction,
        neighbour(rows, columns, location, direction) matches Some(n)
            ==> neighbour(rows, columns, n, opposite(direction)) == Some(location),
{
    match direction {
        Direction::Up => {},
        Direction::Right => {},
        Direction::Left => {},
        Direction::Down => {},
        Direction::Length => {},
    }
}

/// A grid's units and tiles match one to one: each unit stands on one tile of the grid, which
/// holds that unit alone.
pub proof fn law_units_one_to_one(grid: Grid, unit: ID, location: Location)
    requires
        grid.wf(),
    ensures
        grid.unit_locations().contains_key(unit) ==> grid.in_bounds(grid.unit_locations()[unit])
            && grid.location_units()[grid.unit_locations()[unit]] == unit,
        grid.location_units().contains_key(location) ==> grid.unit_locations()[grid.location_units()[location]] == location,
{
}

/// Removing a unit that was placed on a free tile gives back the grid's units.
pub proof fn law_place_remove(grid: Grid, unit: ID, location: Location)
    requires
        grid.wf(),
        !grid.unit_locations().contains_key(unit),
        !grid.location_units().contains_key(location),
    ensures
        grid.unit_locations().insert(unit, location).remove(unit) == grid.unit_locations(),
        grid.location_units().insert(location, unit).remove(grid.unit_locations().insert(unit, location)[unit])
            == grid.location_units(),
{
    assert(grid.unit_locations().insert(unit, location).remove(unit) =~= grid.unit_locations());
    assert(grid.location_units().insert(location, unit).remove(location) =~= grid.location_units());
}

} // verus!
