use rust_sokoban::{
    initialize_level, load_map, register_resources, BoxColour, BoxPlacedOnSpot, EntityMoved,
    Event, Game, GameplayState, Key, Position, Sound, World, MAP, MAP_HEIGHT, MAP_WIDTH,
};

fn level(box_item: &str) -> Game {
    let map = format!(
        "
        W W W W W W W W
        W . . . . . . W
        W . . . . . . W
        W . . . . . . W
        W . P {} BS . . W
        W . . . . . . W
        W . . . . . . W
        W . . . . . . W
        W W W W W W W W
        ",
        box_item
    );
    let mut world = World::new();
    assert_eq!(load_map(&mut world, map), Ok(()));
    Game { world }
}

fn find(game: &Game, pick: impl Fn(&rust_sokoban::Entity) -> bool) -> usize {
    game.world.entities.iter().position(|e| pick(e)).unwrap()
}

fn cell_of(game: &Game, id: usize) -> (u8, u8) {
    let position = game.world.entities[id].position.unwrap();
    (position.x, position.y)
}

fn tick(game: &mut Game) -> Vec<Sound> {
    assert!(game.world.is_well_formed());
    assert!(game.world.gameplay.moves_count < u32::MAX);
    game.update(16_000_000)
}

#[test]
fn blue_box_onto_blue_spot_wins_and_sounds_correct() {
    let mut game = level("BB");
    let the_box = find(&game, |e| e.the_box.is_some());
    let spot = find(&game, |e| e.box_spot.is_some());
    let player = find(&game, |e| e.player.is_some());
    assert_eq!(game.world.entities[the_box].the_box.unwrap().colour, BoxColour::Blue);
    assert_eq!(game.world.entities[spot].box_spot.unwrap().colour, BoxColour::Blue);
    assert_eq!(cell_of(&game, player), (2, 4));
    assert_eq!(cell_of(&game, the_box), (3, 4));
    assert_eq!(cell_of(&game, spot), (4, 4));

    let idle = tick(&mut game);
    assert!(idle.is_empty());
    assert_eq!(game.world.gameplay.state, GameplayState::Playing);

    game.key_down_event(Key::Right);
    let first = tick(&mut game);
    assert!(first.is_empty());
    assert_eq!(cell_of(&game, the_box), cell_of(&game, spot));
    assert_eq!(cell_of(&game, player), (3, 4));
    assert_eq!(game.world.gameplay.state, GameplayState::Won);
    assert_eq!(game.world.gameplay.moves_count, 1);
    assert_eq!(
        game.world.event_queue.events,
        vec![Event::BoxPlacedOnSpot(BoxPlacedOnSpot {
            is_correct_spot: true
        })]
    );

    let second = tick(&mut game);
    assert_eq!(second, vec![Sound::Correct]);
    assert!(game.world.event_queue.events.is_empty());
    assert_eq!(game.world.gameplay.state, GameplayState::Won);
    assert_eq!(game.world.gameplay.moves_count, 1);

    let third = tick(&mut game);
    assert!(third.is_empty());
}

#[test]
fn red_box_onto_blue_spot_wins_and_sounds_incorrect() {
    let mut game = level("RB");
    let the_box = find(&game, |e| e.the_box.is_some());
    let spot = find(&game, |e| e.box_spot.is_some());
    assert_eq!(game.world.entities[the_box].the_box.unwrap().colour, BoxColour::Red);
    assert_eq!(game.world.entities[spot].box_spot.unwrap().colour, BoxColour::Blue);

    game.key_down_event(Key::Right);
    let first = tick(&mut game);
    assert!(first.is_empty());
    assert_eq!(cell_of(&game, the_box), cell_of(&game, spot));
    assert_eq!(game.world.gameplay.state, GameplayState::Won);
    assert_eq!(game.world.gameplay.moves_count, 1);

    let second = tick(&mut game);
    assert_eq!(second, vec![Sound::Incorrect]);
    assert_eq!(game.world.gameplay.state, GameplayState::Won);
}

#[test]
fn push_against_a_wall_sounds_in_the_same_tick() {
    let mut game = level("BB");
    let player = find(&game, |e| e.player.is_some());
    game.key_down_event(Key::Left);
    let first = tick(&mut game);
    assert!(first.is_empty());
    assert_eq!(cell_of(&game, player), (1, 4));
    game.key_down_event(Key::Left);
    let second = tick(&mut game);
    assert_eq!(second, vec![Sound::Wall]);
    assert_eq!(cell_of(&game, player), (1, 4));
    assert_eq!(game.world.gameplay.moves_count, 1);
    assert!(game.world.event_queue.events.is_empty());
}

#[test]
fn one_key_is_played_per_tick() {
    let mut game = level("BB");
    let player = find(&game, |e| e.player.is_some());
    game.key_down_event(Key::Up);
    game.key_down_event(Key::Down);
    assert_eq!(game.world.input_queue.keys_pressed, vec![Key::Up, Key::Down]);
    tick(&mut game);
    assert_eq!(cell_of(&game, player), (2, 5));
    assert_eq!(game.world.input_queue.keys_pressed, vec![Key::Up]);
    tick(&mut game);
    assert_eq!(cell_of(&game, player), (2, 4));
    assert!(game.world.input_queue.keys_pressed.is_empty());
    assert_eq!(game.world.gameplay.moves_count, 2);
}

#[test]
fn moved_events_are_used_up_within_the_tick() {
    let mut game = level("BB");
    game.key_down_event(Key::Up);
    let sounds = tick(&mut game);
    assert!(sounds.is_empty());
    assert!(game.world.event_queue.events.is_empty());
}

#[test]
fn tick_lets_time_pass() {
    let mut game = level("BB");
    tick(&mut game);
    tick(&mut game);
    assert_eq!(game.world.time.delta_nanos, 32_000_000);
    assert_eq!(game.world.time.as_millis(), 32);
}

#[test]
fn empty_world_stays_idle() {
    let mut game = Game { world: World::new() };
    game.key_down_event(Key::Left);
    let sounds = tick(&mut game);
    assert!(sounds.is_empty());
    assert_eq!(game.world.input_queue.keys_pressed, vec![Key::Left]);
    assert_eq!(game.world.gameplay.state, GameplayState::Won);
    assert_eq!(game.world.gameplay.moves_count, 0);
}

#[test]
fn built_in_level_loads() {
    let mut world = World::new();
    assert_eq!(initialize_level(&mut world), Ok(()));
    assert!(world.is_well_formed());
    assert!(world.has_player());
    let rows: Vec<&str> = MAP.trim().split('\n').collect();
    assert_eq!(rows.len(), MAP_HEIGHT as usize);
    for row in rows {
        assert_eq!(row.trim().split(' ').count(), MAP_WIDTH as usize);
    }
    let count = |pick: &dyn Fn(&rust_sokoban::Entity) -> bool| {
        world.entities.iter().filter(|e| pick(e)).count()
    };
    assert_eq!(count(&|e| e.player.is_some()), 1);
    assert_eq!(count(&|e| e.the_box.is_some()), 2);
    assert_eq!(count(&|e| e.box_spot.is_some()), 2);
    assert_eq!(count(&|e| e.wall.is_some()), 30);
    assert_eq!(world.entities.len(), 70 + 30 + 1 + 2 + 2);
    let player = world.entities.iter().find(|e| e.player.is_some()).unwrap();
    assert_eq!(player.position, Some(Position { x: 2, y: 4, z: 10 }));
}

#[test]
fn new_game_starts_on_the_built_in_level() {
    let mut game = Game::new().unwrap();
    assert_eq!(game.world.gameplay.state, GameplayState::Playing);
    assert_eq!(game.world.gameplay.moves_count, 0);
    assert_eq!(game.world.time.delta_nanos, 0);
    let player = find(&game, |e| e.player.is_some());
    game.key_down_event(Key::Right);
    tick(&mut game);
    assert_eq!(cell_of(&game, player), (3, 4));
    assert_eq!(game.world.gameplay.state, GameplayState::Playing);
    game.key_down_event(Key::Up);
    let sounds = tick(&mut game);
    assert!(sounds.is_empty());
    assert_eq!(cell_of(&game, player), (3, 3));
    let red_box = find(&game, |e| e.the_box.map(|b| b.colour) == Some(BoxColour::Red));
    assert_eq!(cell_of(&game, red_box), (3, 2));
    assert_eq!(game.world.gameplay.moves_count, 2);
}

#[test]
fn register_resources_resets_everything_but_the_entities() {
    let mut game = level("BB");
    game.key_down_event(Key::Right);
    tick(&mut game);
    game.key_down_event(Key::Left);
    game.world
        .event_queue
        .events
        .push(Event::EntityMoved(EntityMoved { id: 0 }));
    let entities = game.world.entities.len();
    register_resources(&mut game.world);
    assert_eq!(game.world.entities.len(), entities);
    assert!(game.world.input_queue.keys_pressed.is_empty());
    assert!(game.world.event_queue.events.is_empty());
    assert_eq!(game.world.gameplay.state, GameplayState::Playing);
    assert_eq!(game.world.gameplay.moves_count, 0);
    assert_eq!(game.world.time.delta_nanos, 0);
}
