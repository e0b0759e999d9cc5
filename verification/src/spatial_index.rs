//! Lookup from grid cell to entity.

use crate::world::Entity;
use std::collections::HashMap;
use vstd::prelude::*;
use vstd::std_specs::hash::*;

verus! {

broadcast use vstd::std_specs::hash::group_hash_axioms;

/// The component by which an index picks its entities.
#[derive(Clone, Copy, Debug, PartialEq, Eq, Structural)]
pub enum Tag {
    Movable,
    Immovable,
    Box,
    BoxSpot,
}

impl Tag {
    /// The entity carries the component that this tag stands for.
    pub open spec fn on(self, entity: Entity) -> bool {
        match self {
            Tag::Movable => entity.movable is Some,
            Tag::Immovable => entity.immovable is Some,
            Tag::Box => entity.the_box is Some,
            Tag::BoxSpot => entity.box_spot is Some,
        }
    }

    /// Tells whether the entity carries the component.
    pub fn is_on(&self, entity: &Entity) -> (yes: bool)
        ensures
            yes == self.on(*entity),
    {
        match self {
            Tag::Movable => entity.movable.is_some(),
            Tag::Immovable => entity.immovable.is_some(),
            Tag::Box => entity.the_box.is_some(),
            Tag::BoxSpot => entity.box_spot.is_some(),
        }
    }
}

/// Entity `i` exists, carries `tag` and stands in `cell`.
pub open spec fn stands_at(entities: Seq<Entity>, tag: Tag, cell: (u8, u8), i: int) -> bool {
    0 <= i < entities.len() && tag.on(entities[i]) && entities[i].is_at(cell)
}

/// Among the first `n` entities, the last one that carries `tag` and
/// stands in `cell`.
pub open spec fn last_at(entities: Seq<Entity>, tag: Tag, cell: (u8, u8), n: nat) -> Option<usize>
    decreases n,
{
    if n == 0 {
        None
    } else if stands_at(entities, tag, cell, n - 1) {
        Some((n - 1) as usize)
    } else {
        last_at(entities, tag, cell, (n - 1) as nat)
    }
}

/// The entity that an index over `tag` gives for `cell`: where several
/// stand in one cell, the one with the greatest index.
pub open spec fn occupant(entities: Seq<Entity>, tag: Tag, cell: (u8, u8)) -> Option<usize> {
    last_at(entities, tag, cell, entities.len())
}

/// The index over `tag` as a map from cell to entity.
pub open spec fn index_of(entities: Seq<Entity>, tag: Tag) -> Map<(u8, u8), usize> {
    Map::new(
        |cell: (u8, u8)| occupant(entities, tag, cell) is Some,
        |cell: (u8, u8)| occupant(entities, tag, cell)->0,
    )
}

/// `last_at` finds an entity exactly when one is there, and then it is
/// the one after which no other comes.
pub proof fn lemma_last_at(entities: Seq<Entity>, tag: Tag, cell: (u8, u8), n: nat)
    requires
        n <= entities.len() <= usize::MAX,
    ensures
        match last_at(entities, tag, cell, n) {
            Some(i) => {
                &&& i < n
                &&& stands_at(entities, tag, cell, i as int)
                &&& forall|j: int| i < j < n ==> !stands_at(entities, tag, cell, j)
            },
            None => forall|j: int| 0 <= j < n ==> !stands_at(entities, tag, cell, j),
        },
    decreases n,
{
    if n > 0 && !stands_at(entities, tag, cell, n - 1) {
        lemma_last_at(entities, tag, cell, (n - 1) as nat);
    }
}

/// What the index holds at a cell, said without recursion: an entry is
/// there exactly when some tagged entity stands in the cell, and it
/// names the last such entity.
pub proof fn lemma_index_of(entities: Seq<Entity>, tag: Tag, cell: (u8, u8))
    requires
        entities.len() <= usize::MAX,
    ensures
        index_of(entities, tag).contains_key(cell) <==> exists|i: int|
            stands_at(entities, tag, cell, i),
        index_of(entities, tag).contains_key(cell) ==> {
            let i = index_of(entities, tag)[cell];
            &&& stands_at(entities, tag, cell, i as int)
            &&& forall|j: int| i < j ==> !stands_at(entities, tag, cell, j)
        },
{
    lemma_last_at(entities, tag, cell, entities.len());
    if index_of(entities, tag).contains_key(cell) {
        assert(stands_at(entities, tag, cell, index_of(entities, tag)[cell] as int));
    }
}

/// The number under which a cell is filed.
spec fn cell_key(cell: (u8, u8)) -> u16 {
    (cell.0 as u16 * 256 + cell.1 as u16) as u16
}

fn key_of(x: u8, y: u8) -> (key: u16)
    ensures
        key == cell_key((x, y)),
{
    x as u16 * 256 + y as u16
}

/// A lookup from grid cell to entity, for the entities that carry one
/// tag. It is built from the entity table as it stands and is not kept
/// up to date: build a new one after every change of position.
pub struct SpatialIndex {
    cells: HashMap<u16, usize>,
}

impl View for SpatialIndex {
    type V = Map<(u8, u8), usize>;

    closed spec fn view(&self) -> Map<(u8, u8), usize> {
        Map::new(
            |cell: (u8, u8)| self.cells@.contains_key(cell_key(cell)),
            |cell: (u8, u8)| self.cells@[cell_key(cell)],
        )
    }
}

impl SpatialIndex {
    /// Files every entity that carries `tag` and has a position under
    /// its cell. A later entity replaces an earlier one in the same cell.
    pub fn build(entities: &Vec<Entity>, tag: Tag) -> (index: Self)
        ensures
            index@ == index_of(entities@, tag),
    {
        let mut cells: HashMap<u16, usize> = HashMap::new();
        let mut i: usize = 0;
        while i < entities.len()
            invariant
                i <= entities@.len(),
                forall|cell: (u8, u8)|
                    cells@.contains_key(#[trigger] cell_key(cell)) <==> last_at(
                        entities@,
                        tag,
                        cell,
                        i as nat,
                    ) is Some,
                forall|cell: (u8, u8)|
                    cells@.contains_key(#[trigger] cell_key(cell)) ==> cells@[cell_key(cell)]
                        == last_at(entities@, tag, cell, i as nat)->0,
            decreases entities@.len() - i,
        {
            let entity = &entities[i];
            if tag.is_on(entity) {
                if let Some(position) = entity.position {
                    let key = key_of(position.x, position.y);
                    cells.insert(key, i);
                }
            }
            i += 1;
        }
        let index = SpatialIndex { cells };
        index
    }

    /// The entity filed under cell `(x, y)`, if there is one.
    pub fn get(&self, x: u8, y: u8) -> (id: Option<usize>)
        ensures
            id == (if self@.contains_key((x, y)) {
                Some(self@[(x, y)])
            } else {
                None
            }),
    {
        let key = key_of(x, y);
        match self.cells.get(&key) {
            Some(id) => Some(*id),
            None => None,
        }
    }

    /// Tells whether an entity is filed under cell `(x, y)`.
    pub fn contains(&self, x: u8, y: u8) -> (found: bool)
        ensures
            found == self@.contains_key((x, y)),
    {
        let key = key_of(x, y);
        self.cells.contains_key(&key)
    }
}

} // verus!
