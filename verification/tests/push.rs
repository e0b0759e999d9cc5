use rust_sokoban::{
    create_box, create_box_spot, create_floor, create_player, create_wall, BoxColour, Event,
    EntityMoved, InputSystem, Key, Position, World,
};

fn at(x: u8, y: u8) -> Position {
    Position { x, y, z: 0 }
}

fn cell_of(world: &World, id: usize) -> (u8, u8) {
    let position = world.entities[id].position.unwrap();
    (position.x, position.y)
}

fn press(world: &mut World, key: Key) {
    world.input_queue.keys_pressed.push(key);
    assert!(world.is_well_formed());
    InputSystem {}.run(world);
}

#[test]
fn player_walks_onto_free_floor() {
    let mut world = World::new();
    create_floor(&mut world, at(2, 2));
    create_floor(&mut world, at(3, 2));
    let player = create_player(&mut world, at(2, 2));
    press(&mut world, Key::Right);
    assert_eq!(cell_of(&world, player), (3, 2));
    assert_eq!(world.gameplay.moves_count, 1);
    assert_eq!(
        world.event_queue.events,
        vec![Event::EntityMoved(EntityMoved { id: player })]
    );
    assert!(world.input_queue.keys_pressed.is_empty());
}

#[test]
fn push_keeps_the_layer() {
    let mut world = World::new();
    let player = create_player(&mut world, at(2, 2));
    press(&mut world, Key::Down);
    assert_eq!(
        world.entities[player].position,
        Some(Position { x: 2, y: 3, z: 10 })
    );
}

#[test]
fn run_of_boxes_moves_as_one() {
    for (key, dx, dy) in [
        (Key::Right, 1i16, 0i16),
        (Key::Left, -1, 0),
        (Key::Down, 0, 1),
        (Key::Up, 0, -1),
    ] {
        let mut world = World::new();
        let step = |k: i16| at((4 + k * dx) as u8, (4 + k * dy) as u8);
        let player = create_player(&mut world, step(0));
        let first = create_box(&mut world, step(1), BoxColour::Blue);
        let second = create_box(&mut world, step(2), BoxColour::Red);
        let third = create_box(&mut world, step(3), BoxColour::Blue);
        let bystander = create_box(&mut world, at(1, 1), BoxColour::Red);
        press(&mut world, key);
        for (k, id) in [player, first, second, third].iter().enumerate() {
            let moved = step(k as i16 + 1);
            assert_eq!(cell_of(&world, *id), (moved.x, moved.y));
        }
        assert_eq!(cell_of(&world, bystander), (1, 1));
        assert_eq!(world.gameplay.moves_count, 1);
        assert_eq!(
            world.event_queue.events,
            vec![
                Event::EntityMoved(EntityMoved { id: player }),
                Event::EntityMoved(EntityMoved { id: first }),
                Event::EntityMoved(EntityMoved { id: second }),
                Event::EntityMoved(EntityMoved { id: third }),
            ]
        );
    }
}

#[test]
fn wall_behind_boxes_blocks_everything() {
    let mut world = World::new();
    let player = create_player(&mut world, at(1, 3));
    let first = create_box(&mut world, at(2, 3), BoxColour::Blue);
    let second = create_box(&mut world, at(3, 3), BoxColour::Blue);
    create_wall(&mut world, at(4, 3));
    press(&mut world, Key::Right);
    assert_eq!(cell_of(&world, player), (1, 3));
    assert_eq!(cell_of(&world, first), (2, 3));
    assert_eq!(cell_of(&world, second), (3, 3));
    assert_eq!(world.gameplay.moves_count, 0);
    assert_eq!(world.event_queue.events, vec![Event::PlayerHitObstacle]);
    assert!(world.input_queue.keys_pressed.is_empty());
}

#[test]
fn wall_next_to_player_blocks() {
    let mut world = World::new();
    let player = create_player(&mut world, at(1, 1));
    create_wall(&mut world, at(1, 0));
    press(&mut world, Key::Up);
    assert_eq!(cell_of(&world, player), (1, 1));
    assert_eq!(world.gameplay.moves_count, 0);
    assert_eq!(world.event_queue.events, vec![Event::PlayerHitObstacle]);
}

#[test]
fn scan_stops_at_the_first_wall() {
    let mut world = World::new();
    let player = create_player(&mut world, at(1, 1));
    create_wall(&mut world, at(2, 1));
    create_wall(&mut world, at(3, 1));
    let beyond = create_box(&mut world, at(4, 1), BoxColour::Red);
    press(&mut world, Key::Right);
    assert_eq!(cell_of(&world, player), (1, 1));
    assert_eq!(cell_of(&world, beyond), (4, 1));
    assert_eq!(world.event_queue.events, vec![Event::PlayerHitObstacle]);
}

#[test]
fn left_at_column_zero_is_no_move() {
    let mut world = World::new();
    let player = create_player(&mut world, at(0, 4));
    press(&mut world, Key::Left);
    assert_eq!(
        world.entities[player].position,
        Some(Position { x: 0, y: 4, z: 10 })
    );
    assert!(world.event_queue.events.is_empty());
    assert_eq!(world.gameplay.moves_count, 0);
    assert!(world.input_queue.keys_pressed.is_empty());
}

#[test]
fn up_at_row_zero_is_no_move() {
    let mut world = World::new();
    let player = create_player(&mut world, at(3, 0));
    press(&mut world, Key::Up);
    assert_eq!(cell_of(&world, player), (3, 0));
    assert!(world.event_queue.events.is_empty());
    assert_eq!(world.gameplay.moves_count, 0);
}

#[test]
fn chain_that_reaches_column_zero_stays() {
    let mut world = World::new();
    let player = create_player(&mut world, at(1, 2));
    let the_box = create_box(&mut world, at(0, 2), BoxColour::Blue);
    press(&mut world, Key::Left);
    assert_eq!(cell_of(&world, player), (1, 2));
    assert_eq!(cell_of(&world, the_box), (0, 2));
    assert!(world.event_queue.events.is_empty());
    assert_eq!(world.gameplay.moves_count, 0);
}

#[test]
fn chain_may_pass_the_far_rim() {
    let mut world = World::new();
    let player = create_player(&mut world, at(7, 1));
    let the_box = create_box(&mut world, at(8, 1), BoxColour::Blue);
    press(&mut world, Key::Right);
    assert_eq!(cell_of(&world, player), (8, 1));
    assert_eq!(cell_of(&world, the_box), (9, 1));
    assert_eq!(world.gameplay.moves_count, 1);
    press(&mut world, Key::Right);
    assert_eq!(cell_of(&world, player), (9, 1));
    assert_eq!(world.gameplay.moves_count, 2);
    press(&mut world, Key::Right);
    assert_eq!(cell_of(&world, player), (9, 1));
    assert_eq!(world.gameplay.moves_count, 2);
}

#[test]
fn newest_key_is_played_first() {
    let mut world = World::new();
    let player = create_player(&mut world, at(4, 4));
    world.input_queue.keys_pressed.push(Key::Left);
    press(&mut world, Key::Down);
    assert_eq!(cell_of(&world, player), (4, 5));
    assert_eq!(world.input_queue.keys_pressed, vec![Key::Left]);
    assert!(world.is_well_formed());
    InputSystem {}.run(&mut world);
    assert_eq!(cell_of(&world, player), (3, 5));
    assert!(world.input_queue.keys_pressed.is_empty());
    assert_eq!(world.gameplay.moves_count, 2);
}

#[test]
fn other_key_is_taken_and_ignored() {
    let mut world = World::new();
    let player = create_player(&mut world, at(4, 4));
    press(&mut world, Key::Other);
    assert_eq!(cell_of(&world, player), (4, 4));
    assert!(world.input_queue.keys_pressed.is_empty());
    assert!(world.event_queue.events.is_empty());
    assert_eq!(world.gameplay.moves_count, 0);
}

#[test]
fn without_player_the_key_waits() {
    let mut world = World::new();
    let the_box = create_box(&mut world, at(4, 4), BoxColour::Red);
    press(&mut world, Key::Right);
    assert_eq!(cell_of(&world, the_box), (4, 4));
    assert_eq!(world.input_queue.keys_pressed, vec![Key::Right]);
    assert!(world.event_queue.events.is_empty());
}

#[test]
fn without_key_nothing_happens() {
    let mut world = World::new();
    let player = create_player(&mut world, at(4, 4));
    assert!(world.is_well_formed());
    InputSystem {}.run(&mut world);
    assert_eq!(cell_of(&world, player), (4, 4));
    assert!(world.event_queue.events.is_empty());
    assert_eq!(world.gameplay.moves_count, 0);
}

#[test]
fn spots_and_floor_are_walked_over() {
    let mut world = World::new();
    create_floor(&mut world, at(3, 3));
    let spot = create_box_spot(&mut world, at(3, 3), BoxColour::Blue);
    let player = create_player(&mut world, at(2, 3));
    press(&mut world, Key::Right);
    assert_eq!(cell_of(&world, player), (3, 3));
    assert_eq!(cell_of(&world, spot), (3, 3));
    assert_eq!(world.gameplay.moves_count, 1);
}

#[test]
fn later_entity_wins_a_shared_cell() {
    let mut world = World::new();
    let player = create_player(&mut world, at(2, 2));
    let lower = create_box(&mut world, at(3, 2), BoxColour::Blue);
    let upper = create_box(&mut world, at(3, 2), BoxColour::Red);
    press(&mut world, Key::Right);
    assert_eq!(cell_of(&world, player), (3, 2));
    assert_eq!(cell_of(&world, lower), (3, 2));
    assert_eq!(cell_of(&world, upper), (4, 2));
    assert_eq!(
        world.event_queue.events,
        vec![
            Event::EntityMoved(EntityMoved { id: player }),
            Event::EntityMoved(EntityMoved { id: upper }),
        ]
    );
}

#[test]
fn events_go_behind_those_that_wait() {
    let mut world = World::new();
    let player = create_player(&mut world, at(2, 2));
    world.event_queue.events.push(Event::PlayerHitObstacle);
    press(&mut world, Key::Up);
    assert_eq!(
        world.event_queue.events,
        vec![
            Event::PlayerHitObstacle,
            Event::EntityMoved(EntityMoved { id: player }),
        ]
    );
}
