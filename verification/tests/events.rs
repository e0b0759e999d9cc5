use rust_sokoban::{
    create_box, create_box_spot, create_player, BoxColour, BoxPlacedOnSpot, EntityMoved, Event,
    EventSystem, Position, Sound, World,
};

fn at(x: u8, y: u8) -> Position {
    Position { x, y, z: 0 }
}

fn placed(is_correct_spot: bool) -> Event {
    Event::BoxPlacedOnSpot(BoxPlacedOnSpot { is_correct_spot })
}

fn moved(id: usize) -> Event {
    Event::EntityMoved(EntityMoved { id })
}

#[test]
fn obstacle_hit_asks_for_wall_sound() {
    let mut world = World::new();
    world.event_queue.events.push(Event::PlayerHitObstacle);
    let sounds = EventSystem {}.run(&mut world);
    assert_eq!(sounds, vec![Sound::Wall]);
    assert!(world.event_queue.events.is_empty());
}

#[test]
fn matching_colours_sound_correct_one_pass_later() {
    let mut world = World::new();
    create_box_spot(&mut world, at(3, 3), BoxColour::Blue);
    let the_box = create_box(&mut world, at(3, 3), BoxColour::Blue);
    world.event_queue.events.push(moved(the_box));
    let first = EventSystem {}.run(&mut world);
    assert!(first.is_empty());
    assert_eq!(world.event_queue.events, vec![placed(true)]);
    let second = EventSystem {}.run(&mut world);
    assert_eq!(second, vec![Sound::Correct]);
    assert!(world.event_queue.events.is_empty());
}

#[test]
fn differing_colours_sound_incorrect_one_pass_later() {
    let mut world = World::new();
    create_box_spot(&mut world, at(3, 3), BoxColour::Blue);
    let the_box = create_box(&mut world, at(3, 3), BoxColour::Red);
    world.event_queue.events.push(moved(the_box));
    let first = EventSystem {}.run(&mut world);
    assert!(first.is_empty());
    assert_eq!(world.event_queue.events, vec![placed(false)]);
    let second = EventSystem {}.run(&mut world);
    assert_eq!(second, vec![Sound::Incorrect]);
    assert!(world.event_queue.events.is_empty());
}

#[test]
fn box_off_any_spot_gives_no_event() {
    let mut world = World::new();
    create_box_spot(&mut world, at(3, 3), BoxColour::Blue);
    let the_box = create_box(&mut world, at(4, 3), BoxColour::Blue);
    world.event_queue.events.push(moved(the_box));
    let sounds = EventSystem {}.run(&mut world);
    assert!(sounds.is_empty());
    assert!(world.event_queue.events.is_empty());
}

#[test]
fn player_on_a_spot_gives_no_event() {
    let mut world = World::new();
    create_box_spot(&mut world, at(3, 3), BoxColour::Blue);
    let player = create_player(&mut world, at(3, 3));
    world.event_queue.events.push(moved(player));
    let sounds = EventSystem {}.run(&mut world);
    assert!(sounds.is_empty());
    assert!(world.event_queue.events.is_empty());
}

#[test]
fn unknown_entity_gives_no_event() {
    let mut world = World::new();
    create_box_spot(&mut world, at(3, 3), BoxColour::Blue);
    world.event_queue.events.push(moved(17));
    let sounds = EventSystem {}.run(&mut world);
    assert!(sounds.is_empty());
    assert!(world.event_queue.events.is_empty());
}

#[test]
fn batch_is_handled_oldest_first() {
    let mut world = World::new();
    create_box_spot(&mut world, at(1, 1), BoxColour::Red);
    create_box_spot(&mut world, at(2, 2), BoxColour::Red);
    let blue = create_box(&mut world, at(1, 1), BoxColour::Blue);
    let red = create_box(&mut world, at(2, 2), BoxColour::Red);
    world.event_queue.events = vec![
        placed(false),
        moved(red),
        Event::PlayerHitObstacle,
        moved(blue),
        placed(true),
    ];
    let sounds = EventSystem {}.run(&mut world);
    assert_eq!(sounds, vec![Sound::Incorrect, Sound::Wall, Sound::Correct]);
    assert_eq!(world.event_queue.events, vec![placed(true), placed(false)]);
    let sounds = EventSystem {}.run(&mut world);
    assert_eq!(sounds, vec![Sound::Correct, Sound::Incorrect]);
    assert!(world.event_queue.events.is_empty());
}

#[test]
fn last_spot_of_a_cell_decides() {
    let mut world = World::new();
    create_box_spot(&mut world, at(1, 1), BoxColour::Red);
    create_box_spot(&mut world, at(1, 1), BoxColour::Blue);
    let red = create_box(&mut world, at(1, 1), BoxColour::Red);
    world.event_queue.events.push(moved(red));
    EventSystem {}.run(&mut world);
    assert_eq!(world.event_queue.events, vec![placed(false)]);
}

#[test]
fn event_pass_leaves_the_rest_alone() {
    let mut world = World::new();
    let the_box = create_box(&mut world, at(1, 1), BoxColour::Red);
    world.gameplay.moves_count = 7;
    world.event_queue.events.push(moved(the_box));
    EventSystem {}.run(&mut world);
    assert_eq!(world.gameplay.moves_count, 7);
    assert_eq!(
        world.entities[the_box].position,
        Some(Position { x: 1, y: 1, z: 10 })
    );
}

#[test]
fn sound_names_and_paths() {
    assert_eq!(Sound::Wall.as_str(), "wall");
    assert_eq!(Sound::Correct.as_str(), "correct");
    assert_eq!(Sound::Incorrect.as_str(), "incorrect");
    assert_eq!(Sound::Wall.path(), "/sounds/wall.wav");
    assert_eq!(Sound::Correct.path(), "/sounds/correct.wav");
    assert_eq!(Sound::Incorrect.path(), "/sounds/incorrect.wav");
    assert_eq!(
        Sound::all(),
        vec![Sound::Correct, Sound::Incorrect, Sound::Wall]
    );
}
