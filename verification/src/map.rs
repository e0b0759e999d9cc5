//! Levels written as text: how a map is read and turned into entities.

use crate::components::{BoxColour, Position};
use crate::entities::{create, spawned, Kind};
use crate::text::{chars_of, split, split_at, trim, trimmed};
use crate::world::{has_player, Entity, World};
use vstd::prelude::*;
use vstd::string::*;

verus! {

/// What one item of a map stands for.
#[derive(Clone, Copy, Debug, PartialEq, Eq, Structural)]
pub enum Tile {
    /// `.`: bare floor.
    Floor,
    /// `W`: a wall.
    Wall,
    /// `P`: the player.
    Player,
    /// `BB` and `RB`: a blue and a red box.
    Box(BoxColour),
    /// `BS` and `RS`: a blue and a red spot.
    BoxSpot(BoxColour),
    /// `N`: nothing, not even floor.
    Void,
}

impl Tile {
    /// The entities that the tile puts into its cell: floor under
    /// everything but the void, and on it what the tile names.
    pub open spec fn kinds(self) -> Seq<Kind> {
        match self {
            Tile::Floor => seq![Kind::Floor],
            Tile::Wall => seq![Kind::Floor, Kind::Wall],
            Tile::Player => seq![Kind::Floor, Kind::Player],
            Tile::Box(colour) => seq![Kind::Floor, Kind::Box(colour)],
            Tile::BoxSpot(colour) => seq![Kind::Floor, Kind::BoxSpot(colour)],
            Tile::Void => Seq::empty(),
        }
    }
}

/// Why a map was turned down. Each reason names the item at fault by
/// its row and column, counted from 0.
#[derive(Clone, Copy, Debug, PartialEq, Eq, Structural)]
pub enum MapError {
    /// The item lies beyond row or column 255, where no position reaches.
    TooLarge { row: usize, column: usize },
    /// The item is none of `.`, `W`, `P`, `BB`, `BS`, `RB`, `RS`, `N`.
    UnrecognisedItem { row: usize, column: usize },
    /// The item is a player, and there is a player already.
    DuplicatePlayer { row: usize, column: usize },
}

impl MapError {
    /// The row of the item at fault.
    pub open spec fn row(self) -> usize {
        match self {
            MapError::TooLarge { row, .. } => row,
            MapError::UnrecognisedItem { row, .. } => row,
            MapError::DuplicatePlayer { row, .. } => row,
        }
    }

    /// The column of the item at fault.
    pub open spec fn column(self) -> usize {
        match self {
            MapError::TooLarge { column, .. } => column,
            MapError::UnrecognisedItem { column, .. } => column,
            MapError::DuplicatePlayer { column, .. } => column,
        }
    }
}

/// The tile that an item of a map names, if it names one.
pub open spec fn tile_of(item: Seq<char>) -> Option<Tile> {
    if item == seq!['.'] {
        Some(Tile::Floor)
    } else if item == seq!['W'] {
        Some(Tile::Wall)
    } else if item == seq!['P'] {
        Some(Tile::Player)
    } else if item == seq!['B', 'B'] {
        Some(Tile::Box(BoxColour::Blue))
    } else if item == seq!['B', 'S'] {
        Some(Tile::BoxSpot(BoxColour::Blue))
    } else if item == seq!['R', 'B'] {
        Some(Tile::Box(BoxColour::Red))
    } else if item == seq!['R', 'S'] {
        Some(Tile::BoxSpot(BoxColour::Red))
    } else if item == seq!['N'] {
        Some(Tile::Void)
    } else {
        None
    }
}

/// The items of a map, row by row. The rows are the lines of the text,
/// with the white space round the text and round each line taken off;
/// the items of a row are what single spaces separate.
pub open spec fn items_of(text: Seq<char>) -> Seq<Seq<Seq<char>>> {
    split(trim(text), '\n').map_values(|line: Seq<char>| split(trim(line), ' '))
}

/// The grid has an item in this row and column.
pub open spec fn in_grid(grid: Seq<Seq<Seq<char>>>, row: int, column: int) -> bool {
    0 <= row < grid.len() && 0 <= column < grid[row].len()
}

/// Reading row by row, the first place comes before the second.
pub open spec fn is_before(row: int, column: int, other_row: int, other_column: int) -> bool {
    row < other_row || (row == other_row && column < other_column)
}

/// There is a player before this place: in the world already, or named
/// by an earlier item.
pub open spec fn player_before(
    grid: Seq<Seq<Seq<char>>>,
    had_player: bool,
    row: int,
    column: int,
) -> bool {
    had_player || exists|r: int, c: int|
        in_grid(grid, r, c) && is_before(r, c, row, column) && tile_of(#[trigger] grid[r][c])
            == Some(Tile::Player)
}

/// What is wrong with the item in this place, if anything.
pub open spec fn fault_at(
    grid: Seq<Seq<Seq<char>>>,
    had_player: bool,
    row: int,
    column: int,
) -> Option<MapError> {
    if row > 255 || column > 255 {
        Some(MapError::TooLarge { row: row as usize, column: column as usize })
    } else {
        match tile_of(grid[row][column]) {
            None => Some(MapError::UnrecognisedItem { row: row as usize, column: column as usize }),
            Some(Tile::Player) => if player_before(grid, had_player, row, column) {
                Some(MapError::DuplicatePlayer { row: row as usize, column: column as usize })
            } else {
                None
            },
            Some(_) => None,
        }
    }
}

/// No item before this place is at fault.
pub open spec fn sound_before(
    grid: Seq<Seq<Seq<char>>>,
    had_player: bool,
    row: int,
    column: int,
) -> bool {
    forall|r: int, c: int|
        in_grid(grid, r, c) && is_before(r, c, row, column) ==> fault_at(
            grid,
            had_player,
            r,
            c,
        ) is None
}

/// No item of the grid is at fault.
pub open spec fn is_sound(grid: Seq<Seq<Seq<char>>>, had_player: bool) -> bool {
    forall|r: int, c: int| in_grid(grid, r, c) ==> fault_at(grid, had_player, r, c) is None
}

/// `error` tells what is wrong with the first item at fault, reading row
/// by row.
pub open spec fn is_first_fault(
    grid: Seq<Seq<Seq<char>>>,
    had_player: bool,
    error: MapError,
) -> bool {
    &&& in_grid(grid, error.row() as int, error.column() as int)
    &&& fault_at(grid, had_player, error.row() as int, error.column() as int) == Some(error)
    &&& sound_before(grid, had_player, error.row() as int, error.column() as int)
}

/// The entities that an item puts into the cell in this row and column.
pub open spec fn placed(item: Seq<char>, row: int, column: int) -> Seq<(Kind, Position)> {
    match tile_of(item) {
        Some(tile) => tile.kinds().map_values(
            |kind: Kind| (kind, Position { x: column as u8, y: row as u8, z: 0 }),
        ),
        None => Seq::empty(),
    }
}

/// The entities that the first `n` items of a row put on the grid, in
/// the order of the items.
pub open spec fn row_plan(items: Seq<Seq<char>>, row: int, n: nat) -> Seq<(Kind, Position)>
    decreases n,
{
    if n == 0 {
        Seq::empty()
    } else {
        row_plan(items, row, (n - 1) as nat) + placed(items[n - 1], row, n - 1)
    }
}

/// The entities that the first `n` rows of a grid put on it.
pub open spec fn grid_plan(grid: Seq<Seq<Seq<char>>>, n: nat) -> Seq<(Kind, Position)>
    decreases n,
{
    if n == 0 {
        Seq::empty()
    } else {
        grid_plan(grid, (n - 1) as nat) + row_plan(grid[n - 1], n - 1, grid[n - 1].len())
    }
}

/// The entities that a map puts on the grid, with the cell of each: row
/// by row and item by item.
pub open spec fn plan_of(text: Seq<char>) -> Seq<(Kind, Position)> {
    grid_plan(items_of(text), items_of(text).len())
}

/// At most one entry of the plan is a player, and none if there was a
/// player before.
pub open spec fn one_player(plan: Seq<(Kind, Position)>, had_player: bool) -> bool {
    &&& had_player ==> forall|i: int| 0 <= i < plan.len() ==> !((#[trigger] plan[i]).0 is Player)
    &&& forall|i: int, j: int|
        0 <= i < j < plan.len() && (#[trigger] plan[i]).0 is Player ==> !((#[trigger] plan[j]).0
            is Player)
}

/// `after` is `before` and then, entry by entry, one entity for each
/// entry of the plan.
pub open spec fn built(
    before: Seq<Entity>,
    after: Seq<Entity>,
    plan: Seq<(Kind, Position)>,
) -> bool {
    &&& after.len() == before.len() + plan.len()
    &&& forall|i: int| 0 <= i < before.len() ==> #[trigger] after[i] == before[i]
    &&& forall|k: int|
        0 <= k < plan.len() ==> plan[k].0.makes(plan[k].1, #[trigger] after[before.len() + k])
}

/// Reads one item of a map.
pub fn parse_tile(item: &Vec<char>) -> (tile: Option<Tile>)
    ensures
        tile == tile_of(item@),
{
    if item.len() == 1 {
        let c = item[0];
        assert(item@ =~= seq![c]);
        if c == '.' {
            Some(Tile::Floor)
        } else if c == 'W' {
            Some(Tile::Wall)
        } else if c == 'P' {
            Some(Tile::Player)
        } else if c == 'N' {
            Some(Tile::Void)
        } else {
            None
        }
    } else if item.len() == 2 {
        let a = item[0];
        let b = item[1];
        assert(item@ =~= seq![a, b]);
        if a == 'B' && b == 'B' {
            Some(Tile::Box(BoxColour::Blue))
        } else if a == 'B' && b == 'S' {
            Some(Tile::BoxSpot(BoxColour::Blue))
        } else if a == 'R' && b == 'B' {
            Some(Tile::Box(BoxColour::Red))
        } else if a == 'R' && b == 'S' {
            Some(Tile::BoxSpot(BoxColour::Red))
        } else {
            None
        }
    } else {
        None
    }
}

/// Some entry of the plan is a player.
pub open spec fn holds_player(plan: Seq<(Kind, Position)>) -> bool {
    exists|i: int| 0 <= i < plan.len() && (#[trigger] plan[i]).0 is Player
}

/// The entries of a tile behind a plan with at most one player: the
/// player among them, if any, is the only one, provided there was none.
proof fn lemma_placed_player(
    plan: Seq<(Kind, Position)>,
    tile: Tile,
    position: Position,
    had_player: bool,
)
    requires
        one_player(plan, had_player),
        tile is Player ==> !had_player && !holds_player(plan),
    ensures
        one_player(plan + tile.kinds().map_values(|kind: Kind| (kind, position)), had_player),
        holds_player(plan + tile.kinds().map_values(|kind: Kind| (kind, position))) <==> tile
            is Player || holds_player(plan),
{
    let added = tile.kinds().map_values(|kind: Kind| (kind, position));
    let all = plan + added;
    if tile is Player {
        assert(all[plan.len() as int + 1].0 is Player);
    }
    if holds_player(plan) {
        let i = choose|i: int| 0 <= i < plan.len() && (#[trigger] plan[i]).0 is Player;
        assert(all[i].0 is Player);
    }
}

/// The kinds of a tile, each with `position`, behind `plan`.
fn place(plan: &mut Vec<(Kind, Position)>, tile: Tile, position: Position)
    ensures
        final(plan)@ == old(plan)@ + tile.kinds().map_values(|kind: Kind| (kind, position)),
{
    match tile {
        Tile::Void => {},
        Tile::Floor => {
            plan.push((Kind::Floor, position));
        },
        Tile::Wall => {
            plan.push((Kind::Floor, position));
            plan.push((Kind::Wall, position));
        },
        Tile::Player => {
            plan.push((Kind::Floor, position));
            plan.push((Kind::Player, position));
        },
        Tile::Box(colour) => {
            plan.push((Kind::Floor, position));
            plan.push((Kind::Box(colour), position));
        },
        Tile::BoxSpot(colour) => {
            plan.push((Kind::Floor, position));
            plan.push((Kind::BoxSpot(colour), position));
        },
    }
}

/// Reads a map and lists the entities that it asks for, without making
/// any. `had_player` tells whether a player exists already.
///
/// The map is accepted if and only if no item is at fault; of a map
/// that is turned down, the error names the first item at fault.
pub fn read_map(map_string: &str, had_player: bool) -> (result: Result<
    Vec<(Kind, Position)>,
    MapError,
>)
    ensures
        result is Ok <==> is_sound(items_of(map_string@), had_player),
        result matches Ok(plan) ==> plan@ == plan_of(map_string@) && one_player(
            plan@,
            had_player,
        ),
        result matches Err(error) ==> is_first_fault(items_of(map_string@), had_player, error),
{
    let chars = chars_of(map_string);
    let text = trimmed(&chars);
    let lines = split_at(&text, '\n');
    let ghost grid = items_of(map_string@);
    let mut plan: Vec<(Kind, Position)> = Vec::new();
    let mut seen_player = had_player;
    let mut row: usize = 0;
    while row < lines.len()
        invariant
            row <= lines@.len(),
            grid == items_of(map_string@),
            grid.len() == lines@.len(),
            lines.deep_view() == split(trim(map_string@), '\n'),
            sound_before(grid, had_player, row as int, 0),
            seen_player == player_before(grid, had_player, row as int, 0),
            seen_player == (had_player || holds_player(plan@)),
            plan@ == grid_plan(grid, row as nat),
            one_player(plan@, had_player),
        decreases lines@.len() - row,
    {
        let line = trimmed(&lines[row]);
        let items = split_at(&line, ' ');
        assert(lines.deep_view()[row as int] =~= lines@[row as int]@);
        let ghost row_start = plan@;
        let mut column: usize = 0;
        while column < items.len()
            invariant
                column <= items@.len(),
                row < grid.len(),
                grid == items_of(map_string@),
                items.deep_view() == grid[row as int],
                sound_before(grid, had_player, row as int, column as int),
                seen_player == player_before(grid, had_player, row as int, column as int),
                seen_player == (had_player || holds_player(plan@)),
                row_start == grid_plan(grid, row as nat),
                plan@ == row_start + row_plan(grid[row as int], row as int, column as nat),
                one_player(plan@, had_player),
            decreases items@.len() - column,
        {
            assert(in_grid(grid, row as int, column as int));
            assert(items.deep_view()[column as int] =~= items@[column as int]@);
            if row > 255 || column > 255 {
                return Err(MapError::TooLarge { row, column });
            }
            let tile = match parse_tile(&items[column]) {
                Some(tile) => tile,
                None => {
                    return Err(MapError::UnrecognisedItem { row, column });
                },
            };
            if let Tile::Player = tile {
                if seen_player {
                    return Err(MapError::DuplicatePlayer { row, column });
                }
                seen_player = true;
            }
            let position = Position { x: column as u8, y: row as u8, z: 0 };
            proof {
                lemma_placed_player(plan@, tile, position, had_player);
            }
            place(&mut plan, tile, position);
            column += 1;
        }
        row += 1;
    }
    Ok(plan)
}

/// One more entity, made after the next entry of the plan, carries a
/// build one entry further.
proof fn lemma_built_next(
    before: Seq<Entity>,
    so_far: Seq<Entity>,
    now: Seq<Entity>,
    plan: Seq<(Kind, Position)>,
    k: int,
)
    requires
        0 <= k < plan.len(),
        built(before, so_far, plan.take(k)),
        spawned(so_far, now, plan[k].0, plan[k].1),
    ensures
        built(before, now, plan.take(k + 1)),
        has_player(now) <==> has_player(so_far) || plan[k].0 is Player,
{
    assert forall|i: int| 0 <= i < before.len() implies #[trigger] now[i] == before[i] by {
        assert(now[i] == now.drop_last()[i]);
    }
    assert forall|j: int| 0 <= j < k + 1 implies plan.take(k + 1)[j].0.makes(
        plan.take(k + 1)[j].1,
        #[trigger] now[before.len() + j],
    ) by {
        if j < k {
            assert(now[before.len() + j] == now.drop_last()[before.len() + j]);
        }
    }
    if has_player(now) {
        let p = choose|p: int| 0 <= p < now.len() && (#[trigger] now[p]).player is Some;
        if p < so_far.len() {
            assert(so_far[p] == now.drop_last()[p]);
        }
    }
}

/// Makes one entity for each entry of `plan`, in order.
pub fn build(world: &mut World, plan: &Vec<(Kind, Position)>)
    ensures
        built(old(world).entities@, final(world).entities@, plan@),
        final(world).input_queue == old(world).input_queue,
        final(world).event_queue == old(world).event_queue,
        final(world).gameplay == old(world).gameplay,
        final(world).time == old(world).time,
        old(world).wf() && one_player(plan@, has_player(old(world).entities@))
            ==> final(world).wf(),
{
    let ghost before = world.entities@;
    let ghost had_player = has_player(before);
    let mut k: usize = 0;
    while k < plan.len()
        invariant
            k <= plan@.len(),
            built(before, world.entities@, plan@.take(k as int)),
            world.input_queue == old(world).input_queue,
            world.event_queue == old(world).event_queue,
            world.gameplay == old(world).gameplay,
            world.time == old(world).time,
            before == old(world).entities@,
            had_player == has_player(before),
            old(world).wf() && one_player(plan@, had_player) ==> world.wf(),
            has_player(world.entities@) <==> had_player || holds_player(plan@.take(k as int)),
        decreases plan@.len() - k,
    {
        let (kind, position) = plan[k];
        let ghost so_far = world.entities@;
        create(world, kind, position);
        proof {
            lemma_built_next(before, so_far, world.entities@, plan@, k as int);
        }
        k += 1;
    }
}

/// Reads a map and puts its entities into the world, row by row and
/// item by item.
///
/// A map with an item at fault is turned down, and the world stays as it
/// was: see [`MapError`]. A player that the world holds already makes
/// every player of the map a duplicate.
pub fn load_map(world: &mut World, map_string: String) -> (result: Result<(), MapError>)
    ensures
        result is Ok <==> is_sound(
            items_of(map_string@),
            has_player(old(world).entities@),
        ),
        result is Ok ==> built(
            old(world).entities@,
            final(world).entities@,
            plan_of(map_string@),
        ),
        result matches Err(error) ==> is_first_fault(
            items_of(map_string@),
            has_player(old(world).entities@),
            error,
        ) && final(world).entities == old(world).entities,
        final(world).input_queue == old(world).input_queue,
        final(world).event_queue == old(world).event_queue,
        final(world).gameplay == old(world).gameplay,
        final(world).time == old(world).time,
        old(world).wf() ==> final(world).wf(),
{
    let had_player = world.has_player();
    match read_map(map_string.as_str(), had_player) {
        Ok(plan) => {
            build(world, &plan);
            Ok(())
        },
        Err(error) => Err(error),
    }
}

/// The level that the game starts with: eight columns and nine rows.
pub const MAP: &'static str = "
    N N W W W W W W
    W W W . . . . W
    W . . . BB . . W
    W . . RB . . . W 
    W . P . . . . W
    W . . . . RS . W
    W . . BS . . . W
    W . . . . . . W
    W W W W W W W W
    ";

/// Puts the entities of the built-in level into the world, as
/// [`load_map`] does for any map.
pub fn initialize_level(world: &mut World) -> (result: Result<(), MapError>)
    ensures
        result is Ok <==> is_sound(
            items_of(MAP@),
            has_player(old(world).entities@),
        ),
        result is Ok ==> built(old(world).entities@, final(world).entities@, plan_of(MAP@)),
        result matches Err(error) ==> is_first_fault(
            items_of(MAP@),
            has_player(old(world).entities@),
            error,
        ) && final(world).entities == old(world).entities,
        final(world).input_queue == old(world).input_queue,
        final(world).event_queue == old(world).event_queue,
        final(world).gameplay == old(world).gameplay,
        final(world).time == old(world).time,
        old(world).wf() ==> final(world).wf(),
{
    load_map(world, String::from_str(MAP))
}

} // verus!
