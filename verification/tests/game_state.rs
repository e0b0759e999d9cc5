use rust_sokoban::{
    create_box, create_box_spot, create_player, create_wall, BoxColour, GameStateSystem,
    GameplayState, InputSystem, Key, Position, World,
};

fn at(x: u8, y: u8) -> Position {
    Position { x, y, z: 0 }
}

fn evaluate(world: &mut World) -> GameplayState {
    GameStateSystem {}.run(world);
    world.gameplay.state
}

#[test]
fn no_spot_means_won() {
    let mut world = World::new();
    create_box(&mut world, at(1, 1), BoxColour::Blue);
    assert_eq!(evaluate(&mut world), GameplayState::Won);
}

#[test]
fn open_spot_means_playing() {
    let mut world = World::new();
    create_box_spot(&mut world, at(1, 1), BoxColour::Blue);
    create_box(&mut world, at(2, 1), BoxColour::Blue);
    assert_eq!(evaluate(&mut world), GameplayState::Playing);
}

#[test]
fn every_spot_covered_means_won() {
    let mut world = World::new();
    create_box_spot(&mut world, at(1, 1), BoxColour::Blue);
    create_box_spot(&mut world, at(5, 2), BoxColour::Red);
    create_box(&mut world, at(5, 2), BoxColour::Red);
    create_box(&mut world, at(1, 1), BoxColour::Blue);
    assert_eq!(evaluate(&mut world), GameplayState::Won);
}

#[test]
fn one_open_spot_among_many_means_playing() {
    let mut world = World::new();
    create_box_spot(&mut world, at(1, 1), BoxColour::Blue);
    create_box_spot(&mut world, at(5, 2), BoxColour::Red);
    create_box_spot(&mut world, at(6, 6), BoxColour::Red);
    create_box(&mut world, at(5, 2), BoxColour::Red);
    create_box(&mut world, at(1, 1), BoxColour::Blue);
    assert_eq!(evaluate(&mut world), GameplayState::Playing);
}

#[test]
fn colour_plays_no_part_in_winning() {
    let mut world = World::new();
    create_box_spot(&mut world, at(1, 1), BoxColour::Blue);
    create_box(&mut world, at(1, 1), BoxColour::Red);
    assert_eq!(evaluate(&mut world), GameplayState::Won);
}

#[test]
fn player_or_wall_on_a_spot_does_not_cover_it() {
    let mut world = World::new();
    create_box_spot(&mut world, at(1, 1), BoxColour::Blue);
    create_player(&mut world, at(1, 1));
    assert_eq!(evaluate(&mut world), GameplayState::Playing);
    let mut world = World::new();
    create_box_spot(&mut world, at(1, 1), BoxColour::Blue);
    create_wall(&mut world, at(1, 1));
    assert_eq!(evaluate(&mut world), GameplayState::Playing);
}

#[test]
fn box_pushed_off_its_spot_means_playing_again() {
    let mut world = World::new();
    create_box_spot(&mut world, at(3, 3), BoxColour::Blue);
    let the_box = create_box(&mut world, at(3, 3), BoxColour::Blue);
    create_player(&mut world, at(2, 3));
    assert_eq!(evaluate(&mut world), GameplayState::Won);
    world.input_queue.keys_pressed.push(Key::Right);
    assert!(world.is_well_formed());
    InputSystem {}.run(&mut world);
    assert_eq!(
        world.entities[the_box].position,
        Some(Position { x: 4, y: 3, z: 10 })
    );
    assert_eq!(evaluate(&mut world), GameplayState::Playing);
}

#[test]
fn evaluating_twice_gives_the_same_state() {
    let mut world = World::new();
    create_box_spot(&mut world, at(1, 1), BoxColour::Blue);
    create_box(&mut world, at(1, 1), BoxColour::Red);
    let first = evaluate(&mut world);
    let second = evaluate(&mut world);
    assert_eq!(first, GameplayState::Won);
    assert_eq!(second, first);
    let mut world = World::new();
    create_box_spot(&mut world, at(1, 1), BoxColour::Blue);
    let first = evaluate(&mut world);
    let second = evaluate(&mut world);
    assert_eq!(first, GameplayState::Playing);
    assert_eq!(second, first);
}

#[test]
fn evaluation_keeps_the_number_of_moves() {
    let mut world = World::new();
    world.gameplay.moves_count = 12;
    create_box_spot(&mut world, at(1, 1), BoxColour::Blue);
    evaluate(&mut world);
    assert_eq!(world.gameplay.moves_count, 12);
    assert_eq!(world.gameplay.state.to_string(), "Playing");
    create_box(&mut world, at(1, 1), BoxColour::Blue);
    evaluate(&mut world);
    assert_eq!(world.gameplay.state.to_string(), "Won!");
}
