use rust_sokoban::{
    create_box, create_box_spot, create_floor, create_player, create_wall, BoxColour, Direction,
    Entity, Immovable, Key, Movable, Player, Position, SpatialIndex, Tag, Wall, World,
};

fn at(x: u8, y: u8) -> Position {
    Position { x, y, z: 0 }
}

#[test]
fn created_entities_get_successive_indices() {
    let mut world = World::new();
    assert_eq!(create_floor(&mut world, at(0, 0)), 0);
    assert_eq!(create_wall(&mut world, at(0, 0)), 1);
    assert_eq!(create_player(&mut world, at(1, 0)), 2);
    assert_eq!(create_box(&mut world, at(2, 0), BoxColour::Blue), 3);
    assert_eq!(create_box_spot(&mut world, at(3, 0), BoxColour::Red), 4);
    assert_eq!(world.entities.len(), 5);
    assert!(world.is_well_formed());
}

#[test]
fn new_entity_has_no_component() {
    let entity = Entity::new();
    assert!(entity.position.is_none());
    assert!(entity.renderable.is_none());
    assert!(entity.movable.is_none());
    assert!(entity.immovable.is_none());
    assert!(entity.wall.is_none());
    assert!(entity.player.is_none());
    assert!(entity.the_box.is_none());
    assert!(entity.box_spot.is_none());
    assert!(entity.is_well_formed());
}

#[test]
fn tags_that_contradict_are_found() {
    let mut both = Entity::new();
    both.movable = Some(Movable);
    both.immovable = Some(Immovable);
    assert!(!both.is_well_formed());
    let mut loose_wall = Entity::new();
    loose_wall.wall = Some(Wall {});
    assert!(!loose_wall.is_well_formed());
    let mut fixed_player = Entity::new();
    fixed_player.player = Some(Player {});
    assert!(!fixed_player.is_well_formed());
    fixed_player.movable = Some(Movable);
    assert!(fixed_player.is_well_formed());
    let mut fixed_box = Entity::new();
    fixed_box.the_box = Some(rust_sokoban::Box {
        colour: BoxColour::Red,
    });
    assert!(!fixed_box.is_well_formed());
    let mut world = World::new();
    world.entities.push(both);
    assert!(!world.is_well_formed());
}

#[test]
fn second_player_makes_a_world_ill_formed() {
    let mut world = World::new();
    assert!(!world.has_player());
    create_player(&mut world, at(1, 1));
    assert!(world.has_player());
    assert!(world.is_well_formed());
    create_box(&mut world, at(2, 1), BoxColour::Red);
    create_player(&mut world, at(3, 1));
    assert!(!world.is_well_formed());
}

#[test]
fn index_holds_the_tagged_entities_by_cell() {
    let mut world = World::new();
    let wall = create_wall(&mut world, at(0, 0));
    let player = create_player(&mut world, at(1, 0));
    let the_box = create_box(&mut world, at(2, 0), BoxColour::Blue);
    let spot = create_box_spot(&mut world, at(2, 0), BoxColour::Blue);
    create_floor(&mut world, at(5, 5));
    let movables = SpatialIndex::build(&world.entities, Tag::Movable);
    assert_eq!(movables.get(1, 0), Some(player));
    assert_eq!(movables.get(2, 0), Some(the_box));
    assert_eq!(movables.get(0, 0), None);
    assert_eq!(movables.get(5, 5), None);
    assert_eq!(movables.get(0, 1), None);
    assert!(movables.contains(1, 0));
    assert!(!movables.contains(0, 2));
    let immovables = SpatialIndex::build(&world.entities, Tag::Immovable);
    assert_eq!(immovables.get(0, 0), Some(wall));
    assert_eq!(immovables.get(1, 0), None);
    let boxes = SpatialIndex::build(&world.entities, Tag::Box);
    assert_eq!(boxes.get(2, 0), Some(the_box));
    assert_eq!(boxes.get(1, 0), None);
    let spots = SpatialIndex::build(&world.entities, Tag::BoxSpot);
    assert_eq!(spots.get(2, 0), Some(spot));
}

#[test]
fn index_tells_cells_apart() {
    let mut world = World::new();
    let a = create_box(&mut world, at(1, 0), BoxColour::Blue);
    let b = create_box(&mut world, at(0, 1), BoxColour::Blue);
    let c = create_box(&mut world, at(255, 255), BoxColour::Blue);
    let d = create_box(&mut world, at(0, 255), BoxColour::Blue);
    let e = create_box(&mut world, at(255, 0), BoxColour::Blue);
    let boxes = SpatialIndex::build(&world.entities, Tag::Box);
    assert_eq!(boxes.get(1, 0), Some(a));
    assert_eq!(boxes.get(0, 1), Some(b));
    assert_eq!(boxes.get(255, 255), Some(c));
    assert_eq!(boxes.get(0, 255), Some(d));
    assert_eq!(boxes.get(255, 0), Some(e));
    assert_eq!(boxes.get(0, 0), None);
    assert_eq!(boxes.get(1, 1), None);
}

#[test]
fn index_keeps_the_last_entity_of_a_cell() {
    let mut world = World::new();
    create_box(&mut world, at(4, 4), BoxColour::Blue);
    let last = create_box(&mut world, at(4, 4), BoxColour::Red);
    let boxes = SpatialIndex::build(&world.entities, Tag::Box);
    assert_eq!(boxes.get(4, 4), Some(last));
}

#[test]
fn index_leaves_out_entities_without_position() {
    let mut world = World::new();
    let mut adrift = Entity::new();
    adrift.movable = Some(Movable);
    world.entities.push(adrift);
    let movables = SpatialIndex::build(&world.entities, Tag::Movable);
    assert_eq!(movables.get(0, 0), None);
}

#[test]
fn arrow_keys_have_directions() {
    assert_eq!(Key::Up.to_direction(), Some(Direction::Up));
    assert_eq!(Key::Down.to_direction(), Some(Direction::Down));
    assert_eq!(Key::Left.to_direction(), Some(Direction::Left));
    assert_eq!(Key::Right.to_direction(), Some(Direction::Right));
    assert_eq!(Key::Other.to_direction(), None);
}

#[test]
fn chain_is_found_along_the_line() {
    let mut world = World::new();
    let player = create_player(&mut world, at(2, 2));
    let first = create_box(&mut world, at(2, 3), BoxColour::Blue);
    let second = create_box(&mut world, at(2, 4), BoxColour::Blue);
    create_box(&mut world, at(2, 6), BoxColour::Blue);
    create_wall(&mut world, at(2, 0));
    let movables = SpatialIndex::build(&world.entities, Tag::Movable);
    let immovables = SpatialIndex::build(&world.entities, Tag::Immovable);
    let from = world.entities[player].position.unwrap();
    assert_eq!(
        rust_sokoban::find_chain(&movables, &immovables, Direction::Down, from),
        Some(vec![player, first, second])
    );
    assert_eq!(
        rust_sokoban::find_chain(&movables, &immovables, Direction::Left, from),
        Some(vec![player])
    );
    assert_eq!(
        rust_sokoban::find_chain(&movables, &immovables, Direction::Up, from),
        Some(vec![player])
    );
    let above = Position { x: 2, y: 1, z: 0 };
    assert_eq!(
        rust_sokoban::find_chain(&movables, &immovables, Direction::Up, above),
        Some(vec![])
    );
    let below_wall = Position { x: 2, y: 0, z: 0 };
    assert_eq!(
        rust_sokoban::find_chain(&movables, &immovables, Direction::Up, below_wall),
        None
    );
    let outside = Position { x: 9, y: 2, z: 0 };
    assert_eq!(
        rust_sokoban::find_chain(&movables, &immovables, Direction::Right, outside),
        Some(vec![])
    );
}

#[test]
fn reach_runs_to_the_rim() {
    let from = Position { x: 2, y: 5, z: 0 };
    assert_eq!(Direction::Left.reach_of(from), 3);
    assert_eq!(Direction::Up.reach_of(from), 6);
    assert_eq!(Direction::Right.reach_of(from), 7);
    assert_eq!(Direction::Down.reach_of(from), 5);
    let corner = Position { x: 8, y: 9, z: 0 };
    assert_eq!(Direction::Right.reach_of(corner), 1);
    assert_eq!(Direction::Down.reach_of(corner), 1);
    let outside = Position { x: 9, y: 10, z: 0 };
    assert_eq!(Direction::Right.reach_of(outside), 0);
    assert_eq!(Direction::Down.reach_of(outside), 0);
    let far = Position { x: 255, y: 255, z: 0 };
    assert_eq!(Direction::Left.reach_of(far), 256);
    assert_eq!(Direction::Up.reach_of(far), 256);
}

#[test]
fn cells_lie_along_the_direction() {
    let from = Position { x: 2, y: 5, z: 7 };
    assert_eq!(Direction::Left.cell_of(from, 0), (2, 5));
    assert_eq!(Direction::Left.cell_of(from, 2), (0, 5));
    assert_eq!(Direction::Up.cell_of(from, 5), (2, 0));
    assert_eq!(Direction::Right.cell_of(from, 6), (8, 5));
    assert_eq!(Direction::Down.cell_of(from, 4), (2, 9));
    assert!(Direction::Left.goes_backward());
    assert!(Direction::Up.goes_backward());
    assert!(!Direction::Right.goes_backward());
    assert!(!Direction::Down.goes_backward());
}

#[test]
fn player_is_the_first_that_steers() {
    let mut world = World::new();
    assert_eq!(rust_sokoban::InputSystem::find_player(&world.entities), None);
    create_box(&mut world, at(0, 0), BoxColour::Blue);
    let mut adrift = Entity::new();
    adrift.player = Some(Player {});
    adrift.movable = Some(Movable);
    world.entities.push(adrift);
    assert_eq!(rust_sokoban::InputSystem::find_player(&world.entities), None);
    let mut world = World::new();
    create_box(&mut world, at(0, 0), BoxColour::Blue);
    let player = create_player(&mut world, at(1, 1));
    create_box(&mut world, at(2, 0), BoxColour::Blue);
    assert_eq!(
        rust_sokoban::InputSystem::find_player(&world.entities),
        Some(player)
    );
}
