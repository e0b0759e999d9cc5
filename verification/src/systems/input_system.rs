//! The input phase: one key press becomes one push.

use crate::audio::Sound;
use crate::components::Position;
use crate::events::{EntityMoved, Event};
use crate::push::{chain_of, find_chain, lemma_run_length, lemma_run_length_is, Direction};
use crate::resources::Key;
use crate::spatial_index::{index_of, lemma_index_of, stands_at, SpatialIndex, Tag};
use crate::systems::event_system::{lemma_sounds_of_concat, sounds_of};
use crate::world::{entities_wf, Entity, World};
use vstd::prelude::*;

verus! {

/// The entity steers the game: it is a player and has a position.
pub open spec fn steers(entity: Entity) -> bool {
    entity.player is Some && entity.position is Some
}

/// The first of the first `n` entities that steers the game.
pub open spec fn player_among(entities: Seq<Entity>, n: nat) -> Option<usize>
    decreases n,
{
    if n == 0 {
        None
    } else {
        match player_among(entities, (n - 1) as nat) {
            Some(i) => Some(i),
            None => if n <= entities.len() && steers(entities[n - 1]) {
                Some((n - 1) as usize)
            } else {
                None
            },
        }
    }
}

/// The entity that key presses move. A well-formed world has at most
/// one player; this is the first.
pub open spec fn player_of(entities: Seq<Entity>) -> Option<usize> {
    player_among(entities, entities.len())
}

/// The entities after the members of `chain` have each moved one cell
/// in `direction`: a member stands one cell further, on its layer and
/// with its other components as they were; everything else is as it was.
pub open spec fn pushed(entities: Seq<Entity>, direction: Direction, chain: Seq<usize>) -> Seq<
    Entity,
> {
    Seq::new(
        entities.len(),
        |i: int|
            if chain.contains(i as usize) && entities[i].position is Some {
                entities[i].moved_to(direction.shifted(entities[i].position->0))
            } else {
                entities[i]
            },
    )
}

/// What one run of the input phase comes to.
pub enum Outcome {
    /// No player stands on the grid, or no key press waits. Nothing
    /// changes, and the queue of key presses is left alone.
    Idle,
    /// A key press was taken and nothing moves: the key is no arrow,
    /// there is nothing to push, or the chain would leave the grid past
    /// row or column 0.
    Still,
    /// A key press was taken and the push met something immovable.
    Blocked,
    /// A key press was taken and `chain` moves one cell in `direction`.
    /// The chain is not empty and starts with the entity in the
    /// player's cell.
    Moved { direction: Direction, chain: Seq<usize> },
}

impl Outcome {
    /// The entities after the phase.
    pub open spec fn entities(self, before: Seq<Entity>) -> Seq<Entity> {
        match self {
            Outcome::Moved { direction, chain } => pushed(before, direction, chain),
            _ => before,
        }
    }

    /// The key presses that still wait after the phase: the newest is
    /// taken unless the phase was idle.
    pub open spec fn keys(self, before: Seq<Key>) -> Seq<Key> {
        if self is Idle {
            before
        } else {
            before.drop_last()
        }
    }

    /// The events that the phase adds to the queue: one obstacle hit for
    /// a blocked push, one `EntityMoved` for each member of a moved
    /// chain, in chain order.
    pub open spec fn events(self) -> Seq<Event> {
        match self {
            Outcome::Blocked => seq![Event::PlayerHitObstacle],
            Outcome::Moved { direction, chain } => chain.map_values(
                |id: usize| Event::EntityMoved(EntityMoved { id }),
            ),
            _ => Seq::empty(),
        }
    }

    /// The number of moves after the phase: one more if anything moved.
    pub open spec fn moves(self, before: u32) -> int {
        if self is Moved {
            before + 1
        } else {
            before as int
        }
    }
}

/// What a push in `direction` comes to, for a player that stands in
/// `from`.
pub open spec fn push_outcome(
    entities: Seq<Entity>,
    direction: Direction,
    from: (u8, u8),
) -> Outcome {
    match chain_of(
        index_of(entities, Tag::Movable),
        index_of(entities, Tag::Immovable),
        direction,
        from,
    ) {
        None => Outcome::Blocked,
        Some(chain) => if chain.len() == 0 || (direction.is_backward() && chain.len()
            == direction.reach(from)) {
            Outcome::Still
        } else {
            Outcome::Moved { direction, chain }
        },
    }
}

/// What the input phase comes to on these entities with these key
/// presses waiting.
pub open spec fn outcome_of(entities: Seq<Entity>, keys: Seq<Key>) -> Outcome {
    match player_of(entities) {
        None => Outcome::Idle,
        Some(player) => if keys.len() == 0 {
            Outcome::Idle
        } else {
            match keys.last().direction() {
                None => Outcome::Still,
                Some(direction) => push_outcome(
                    entities,
                    direction,
                    entities[player as int].position->0.cell(),
                ),
            }
        },
    }
}

/// Once a player is found among the first `n` entities, it stays the
/// answer for every longer prefix.
proof fn lemma_player_among_stable(entities: Seq<Entity>, n: nat, m: nat)
    requires
        n <= m,
        player_among(entities, n) is Some,
    ensures
        player_among(entities, m) == player_among(entities, n),
    decreases m,
{
    if n < m {
        lemma_player_among_stable(entities, n, (m - 1) as nat);
    }
}

/// The player is an entity of the table that steers the game, and no
/// entity before it does.
pub proof fn lemma_player_of(entities: Seq<Entity>)
    requires
        entities.len() <= usize::MAX,
    ensures
        match player_of(entities) {
            Some(p) => p < entities.len() && steers(entities[p as int]) && forall|j: int|
                0 <= j < p ==> !steers(#[trigger] entities[j]),
            None => forall|j: int| 0 <= j < entities.len() ==> !steers(#[trigger] entities[j]),
        },
{
    lemma_player_among(entities, entities.len());
}

proof fn lemma_player_among(entities: Seq<Entity>, n: nat)
    requires
        n <= entities.len() <= usize::MAX,
    ensures
        match player_among(entities, n) {
            Some(p) => p < n && steers(entities[p as int]) && forall|j: int|
                0 <= j < p ==> !steers(#[trigger] entities[j]),
            None => forall|j: int| 0 <= j < n ==> !steers(#[trigger] entities[j]),
        },
    decreases n,
{
    if n > 0 {
        lemma_player_among(entities, (n - 1) as nat);
    }
}

/// The members of a chain are movable entities of the table, each in
/// its own cell along the line of the push, so no entity is in the chain
/// twice.
pub proof fn lemma_chain_members(
    entities: Seq<Entity>,
    direction: Direction,
    from: (u8, u8),
    chain: Seq<usize>,
)
    requires
        entities.len() <= usize::MAX,
        chain_of(
            index_of(entities, Tag::Movable),
            index_of(entities, Tag::Immovable),
            direction,
            from,
        ) == Some(chain),
    ensures
        chain.len() <= direction.reach(from),
        forall|j: int|
            0 <= j < chain.len() ==> stands_at(
                entities,
                Tag::Movable,
                direction.cell(from, j),
                #[trigger] chain[j] as int,
            ),
        forall|i: int, j: int|
            0 <= i < j < chain.len() ==> #[trigger] chain[i] != #[trigger] chain[j],
{
    let movables = index_of(entities, Tag::Movable);
    lemma_run_length(movables, direction, from, 0);
    assert forall|j: int| 0 <= j < chain.len() implies stands_at(
        entities,
        Tag::Movable,
        direction.cell(from, j),
        #[trigger] chain[j] as int,
    ) by {
        lemma_index_of(entities, Tag::Movable, direction.cell(from, j));
    }
}

/// Nothing that can be moved and nothing immovable stands in `cell`.
pub open spec fn is_free(entities: Seq<Entity>, cell: (u8, u8)) -> bool {
    forall|i: int|
        !stands_at(entities, Tag::Movable, cell, i) && !stands_at(
            entities,
            Tag::Immovable,
            cell,
            i,
        )
}

/// Entity `id` stands in `cell` and can be moved, and it is the only
/// such entity there.
pub open spec fn holds_only(entities: Seq<Entity>, cell: (u8, u8), id: usize) -> bool {
    &&& stands_at(entities, Tag::Movable, cell, id as int)
    &&& forall|i: int| i != id ==> !stands_at(entities, Tag::Movable, cell, i)
}

/// A run of movable entities, one to a cell from `from` on, with a free
/// cell or the end of the reach behind it, is the chain of a push from
/// `from`.
proof fn lemma_run_is_chain(
    entities: Seq<Entity>,
    direction: Direction,
    from: (u8, u8),
    run: Seq<usize>,
)
    requires
        entities.len() <= usize::MAX,
        forall|k: int|
            0 <= k < run.len() ==> holds_only(entities, #[trigger] direction.cell(from, k), run[k]),
        run.len() <= direction.reach(from),
        run.len() < direction.reach(from) ==> is_free(
            entities,
            direction.cell(from, run.len() as int),
        ),
    ensures
        chain_of(
            index_of(entities, Tag::Movable),
            index_of(entities, Tag::Immovable),
            direction,
            from,
        ) == Some(run),
{
    let movables = index_of(entities, Tag::Movable);
    let immovables = index_of(entities, Tag::Immovable);
    let n = run.len();
    let end = direction.cell(from, n as int);
    assert forall|k: int| 0 <= k < n implies movables.contains_key(
        #[trigger] direction.cell(from, k),
    ) && movables[direction.cell(from, k)] == run[k] by {
        lemma_index_of(entities, Tag::Movable, direction.cell(from, k));
    }
    if n < direction.reach(from) {
        assert(!movables.contains_key(end)) by {
            lemma_index_of(entities, Tag::Movable, end);
        }
        assert(!immovables.contains_key(end)) by {
            lemma_index_of(entities, Tag::Immovable, end);
        }
    }
    lemma_run_length_is(movables, direction, from, 0, n);
}

/// A push into a straight run of boxes, or of anything else that can
/// be moved, with a free cell behind it: the player and every member of
/// the run move by exactly one cell, nothing else changes place, and the
/// number of moves goes up by exactly one. The same holds of a run that
/// ends at the far rim of the grid, with no cell behind it to look at.
///
/// `run` lists what stands in the cells from the player's on, each the
/// only movable entity of its cell: so the player first, then the boxes.
pub proof fn lemma_push_moves_run(
    entities: Seq<Entity>,
    keys: Seq<Key>,
    direction: Direction,
    run: Seq<usize>,
)
    requires
        entities.len() <= usize::MAX,
        entities_wf(entities),
        player_of(entities) is Some,
        keys.len() > 0,
        keys.last().direction() == Some(direction),
        run.len() > 0,
        forall|k: int|
            0 <= k < run.len() ==> holds_only(
                entities,
                #[trigger] direction.cell(
                    entities[player_of(entities)->0 as int].position->0.cell(),
                    k,
                ),
                run[k],
            ),
        run.len() <= direction.reach(entities[player_of(entities)->0 as int].position->0.cell()),
        run.len() < direction.reach(entities[player_of(entities)->0 as int].position->0.cell())
            ==> is_free(
            entities,
            direction.cell(
                entities[player_of(entities)->0 as int].position->0.cell(),
                run.len() as int,
            ),
        ),
        direction.is_backward() ==> run.len() < direction.reach(
            entities[player_of(entities)->0 as int].position->0.cell(),
        ),
    ensures
        run[0] == player_of(entities)->0,
        outcome_of(entities, keys) == (Outcome::Moved { direction, chain: run }),
        forall|k: int|
            0 <= k < run.len() ==> {
                let before = entities[run[k] as int];
                let after = #[trigger] outcome_of(entities, keys).entities(entities)[run[k] as int];
                &&& after == before.moved_to(direction.shifted(before.position->0))
                &&& after.is_at(
                    direction.cell(
                        entities[player_of(entities)->0 as int].position->0.cell(),
                        k + 1,
                    ),
                )
            },
        forall|i: int|
            0 <= i < entities.len() && !run.contains(i as usize) ==> #[trigger] outcome_of(
                entities,
                keys,
            ).entities(entities)[i] == entities[i],
        forall|moves: u32| #[trigger] outcome_of(entities, keys).moves(moves) == moves + 1,
{
    let player = player_of(entities)->0;
    let from = entities[player as int].position->0.cell();
    assert(run[0] == player) by {
        lemma_player_of(entities);
        assert(entities[player as int].wf());
        assert(stands_at(entities, Tag::Movable, from, player as int));
        assert(holds_only(entities, direction.cell(from, 0), run[0]));
    }
    lemma_run_is_chain(entities, direction, from, run);
    assert(outcome_of(entities, keys) == (Outcome::Moved { direction, chain: run }));
    let after = pushed(entities, direction, run);
    assert(outcome_of(entities, keys).entities(entities) == after);
    assert forall|k: int| 0 <= k < run.len() implies {
        let before = entities[(#[trigger] run[k]) as int];
        &&& after[run[k] as int] == before.moved_to(direction.shifted(before.position->0))
        &&& after[run[k] as int].is_at(direction.cell(from, k + 1))
    } by {
        lemma_member_shifts(entities, direction, from, run, k);
    }
}

/// The `k`-th member of a run that moves ends up in the next cell.
proof fn lemma_member_shifts(
    entities: Seq<Entity>,
    direction: Direction,
    from: (u8, u8),
    run: Seq<usize>,
    k: int,
)
    requires
        0 <= k < run.len() <= direction.reach(from),
        direction.is_backward() ==> run.len() < direction.reach(from),
        stands_at(entities, Tag::Movable, direction.cell(from, k), run[k] as int),
    ensures
        pushed(entities, direction, run)[run[k] as int] == entities[run[k] as int].moved_to(
            direction.shifted(entities[run[k] as int].position->0),
        ),
        pushed(entities, direction, run)[run[k] as int].is_at(direction.cell(from, k + 1)),
{
    assert(run.contains(run[k]));
}

/// A push that meets something immovable, at once or behind any number
/// of boxes: nothing moves, the number of moves stays, and the one event
/// queued is an obstacle hit, for which the event phase asks for one
/// `Wall` sound behind the sounds of the events that waited.
///
/// `n` is the number of cells in front of the obstacle, the player's own
/// included.
pub proof fn lemma_push_blocked(
    entities: Seq<Entity>,
    keys: Seq<Key>,
    direction: Direction,
    n: nat,
    waiting: Seq<Event>,
)
    requires
        entities.len() <= usize::MAX,
        entities_wf(entities),
        player_of(entities) is Some,
        keys.len() > 0,
        keys.last().direction() == Some(direction),
        n < direction.reach(entities[player_of(entities)->0 as int].position->0.cell()),
        forall|k: int|
            0 <= k < n ==> exists|i: int|
                stands_at(
                    entities,
                    Tag::Movable,
                    #[trigger] direction.cell(
                        entities[player_of(entities)->0 as int].position->0.cell(),
                        k,
                    ),
                    i,
                ),
        forall|i: int|
            !stands_at(
                entities,
                Tag::Movable,
                direction.cell(
                    entities[player_of(entities)->0 as int].position->0.cell(),
                    n as int,
                ),
                i,
            ),
        exists|i: int|
            stands_at(
                entities,
                Tag::Immovable,
                direction.cell(
                    entities[player_of(entities)->0 as int].position->0.cell(),
                    n as int,
                ),
                i,
            ),
    ensures
        outcome_of(entities, keys) == Outcome::Blocked,
        outcome_of(entities, keys).entities(entities) == entities,
        forall|moves: u32| #[trigger] outcome_of(entities, keys).moves(moves) == moves,
        outcome_of(entities, keys).events() == seq![Event::PlayerHitObstacle],
        sounds_of(outcome_of(entities, keys).events()) == seq![Sound::Wall],
        sounds_of(waiting + outcome_of(entities, keys).events()) == sounds_of(waiting).push(
            Sound::Wall,
        ),
{
    let from = entities[player_of(entities)->0 as int].position->0.cell();
    let movables = index_of(entities, Tag::Movable);
    assert forall|k: int| 0 <= k < n implies movables.contains_key(
        #[trigger] direction.cell(from, k),
    ) by {
        lemma_index_of(entities, Tag::Movable, direction.cell(from, k));
    }
    lemma_index_of(entities, Tag::Movable, direction.cell(from, n as int));
    lemma_index_of(entities, Tag::Immovable, direction.cell(from, n as int));
    lemma_run_length_is(movables, direction, from, 0, n);
    let hit = seq![Event::PlayerHitObstacle];
    assert(sounds_of(hit.drop_last()) == Seq::<Sound>::empty());
    lemma_sounds_of_concat(waiting, hit);
}

/// A player in row or column 0 that pushes towards the rim stays where
/// it is: nothing moves, nothing is queued, the number of moves stays.
pub proof fn lemma_push_at_rim(entities: Seq<Entity>, keys: Seq<Key>, direction: Direction)
    requires
        entities.len() <= usize::MAX,
        entities_wf(entities),
        player_of(entities) is Some,
        keys.len() > 0,
        keys.last().direction() == Some(direction),
        direction == Direction::Left && entities[player_of(entities)->0 as int].position->0.x == 0
            || direction == Direction::Up && entities[player_of(
            entities,
        )->0 as int].position->0.y == 0,
    ensures
        outcome_of(entities, keys) == Outcome::Still,
        outcome_of(entities, keys).entities(entities) == entities,
        outcome_of(entities, keys).events() == Seq::<Event>::empty(),
        forall|moves: u32| #[trigger] outcome_of(entities, keys).moves(moves) == moves,
{
    lemma_player_of(entities);
    let player = player_of(entities)->0;
    let from = entities[player as int].position->0.cell();
    assert(stands_at(entities, Tag::Movable, from, player as int));
    lemma_index_of(entities, Tag::Movable, from);
    lemma_run_length_is(index_of(entities, Tag::Movable), direction, from, 0, 1);
}

/// The push resolution phase: it turns the newest key press into moves
/// of the player and of the boxes in front of it.
pub struct InputSystem {}

impl InputSystem {
    /// Finds the entity that key presses move.
    pub fn find_player(entities: &Vec<Entity>) -> (player: Option<usize>)
        ensures
            player == player_of(entities@),
    {
        let mut i: usize = 0;
        while i < entities.len()
            invariant
                i <= entities@.len(),
                player_among(entities@, i as nat) is None,
            decreases entities@.len() - i,
        {
            if entities[i].player.is_some() && entities[i].position.is_some() {
                proof {
                    lemma_player_among_stable(entities@, (i + 1) as nat, entities@.len());
                }
                return Some(i);
            }
            i += 1;
        }
        None
    }

    /// Plays the newest key press that waits, if a player stands on the
    /// grid.
    ///
    /// The entities in a straight line from the player's cell that can
    /// be moved form a chain. If the chain ends at an empty cell, or at
    /// the far rim of the grid, every member moves one cell and the
    /// number of moves goes up by one. If it ends at something
    /// immovable, nothing moves and one `PlayerHitObstacle` is queued. If
    /// it runs up to row or column 0, nothing moves and nothing is
    /// queued.
    pub fn run(&mut self, world: &mut World)
        requires
            old(world).wf(),
            old(world).gameplay.moves_count < u32::MAX,
        ensures
            final(world).wf(),
            final(world).entities@ == outcome_of(
                old(world).entities@,
                old(world).input_queue.keys_pressed@,
            ).entities(old(world).entities@),
            final(world).input_queue.keys_pressed@ == outcome_of(
                old(world).entities@,
                old(world).input_queue.keys_pressed@,
            ).keys(old(world).input_queue.keys_pressed@),
            final(world).event_queue.events@ == old(world).event_queue.events@ + outcome_of(
                old(world).entities@,
                old(world).input_queue.keys_pressed@,
            ).events(),
            final(world).gameplay.moves_count == outcome_of(
                old(world).entities@,
                old(world).input_queue.keys_pressed@,
            ).moves(old(world).gameplay.moves_count),
            final(world).gameplay.state == old(world).gameplay.state,
            final(world).time == old(world).time,
    {
        let ghost before = old(world).entities@;
        let ghost keys = old(world).input_queue.keys_pressed@;
        let ghost events = old(world).event_queue.events@;
        proof {
            assert(before.len() == old(world).entities.len());
            lemma_player_of(before);
        }
        let player = match Self::find_player(&world.entities) {
            Some(player) => player,
            None => {
                return ;
            },
        };
        let key = match world.input_queue.keys_pressed.pop() {
            Some(key) => key,
            None => {
                return ;
            },
        };
        let direction = match key.to_direction() {
            Some(direction) => direction,
            None => {
                return ;
            },
        };
        let from = world.entities[player].position.unwrap();
        let movables = SpatialIndex::build(&world.entities, Tag::Movable);
        let immovables = SpatialIndex::build(&world.entities, Tag::Immovable);
        let chain = match find_chain(&movables, &immovables, direction, from) {
            Some(chain) => chain,
            None => {
                world.event_queue.events.push(Event::PlayerHitObstacle);
                return ;
            },
        };
        proof {
            lemma_chain_members(before, direction, from.cell(), chain@);
        }
        let leaves_grid = direction.goes_backward() && chain.len() == direction.reach_of(
            from,
        ) as usize;
        if chain.len() == 0 || leaves_grid {
            return ;
        }
        world.gameplay.moves_count += 1;
        let mut j: usize = 0;
        while j < chain.len()
            invariant
                j <= chain@.len(),
                before.len() <= usize::MAX,
                chain@.len() <= direction.reach(from.cell()),
                direction.is_backward() ==> chain@.len() < direction.reach(from.cell()),
                forall|k: int|
                    0 <= k < chain@.len() ==> stands_at(
                        before,
                        Tag::Movable,
                        direction.cell(from.cell(), k),
                        #[trigger] chain@[k] as int,
                    ),
                forall|a: int, b: int|
                    0 <= a < b < chain@.len() ==> #[trigger] chain@[a] != #[trigger] chain@[b],
                world.entities@ == pushed(before, direction, chain@.take(j as int)),
                world.event_queue.events@ == events + chain@.take(j as int).map_values(
                    |id: usize| Event::EntityMoved(EntityMoved { id }),
                ),
                world.input_queue.keys_pressed@ == keys.drop_last(),
                world.gameplay.moves_count == old(world).gameplay.moves_count + 1,
                world.gameplay.state == old(world).gameplay.state,
                world.time == old(world).time,
            decreases chain@.len() - j,
        {
            let id = chain[j];
            let position = world.entities[id].position.unwrap();
            let target = match direction {
                Direction::Up => Position { x: position.x, y: position.y - 1, z: position.z },
                Direction::Down => Position { x: position.x, y: position.y + 1, z: position.z },
                Direction::Left => Position { x: position.x - 1, y: position.y, z: position.z },
                Direction::Right => Position { x: position.x + 1, y: position.y, z: position.z },
            };
            world.entities[id].position = Some(target);
            world.event_queue.events.push(Event::EntityMoved(EntityMoved { id }));
            proof {
                let next = chain@.take(j + 1);
                assert(next =~= chain@.take(j as int).push(id));
                assert forall|i: int| 0 <= i < before.len() implies world.entities@[i] == pushed(
                    before,
                    direction,
                    next,
                )[i] by {
                    if i == id as int {
                        assert(next[j as int] == id);
                    }
                }
            }
            j += 1;
        }
        proof {
            assert(chain@.take(chain@.len() as int) =~= chain@);
        }
    }
}

} // verus!
