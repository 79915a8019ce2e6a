use engine::components::{Player, Position, Size, Sprite, Velocity};
use engine::engine::{GameState, MAX_VELOCITY};
use engine::storage::Entity;

fn tiny_sprite() -> Sprite {
    Sprite::from_rgba(1, 1, vec![1, 2, 3, 4]).unwrap()
}

fn player_velocity(g: &GameState) -> Velocity {
    *g.world.get_component::<Velocity>(g.player).unwrap()
}

#[test]
fn new_game_state_has_player() {
    let g = GameState::new(8, 6, tiny_sprite());
    assert_eq!(g.width, 8);
    assert_eq!(g.height, 6);
    assert_eq!(g.player, Entity { id: 0 });
    assert_eq!(g.world.get_component::<Position>(g.player), Some(&Position { x: 100, y: 100 }));
    assert_eq!(g.world.get_component::<Velocity>(g.player), Some(&Velocity { x: 0, y: 0 }));
    assert_eq!(g.world.get_component::<Size>(g.player), Some(&Size { width: 50, height: 50 }));
    assert_eq!(g.world.get_component::<Player>(g.player), Some(&Player {}));
    let s = g.world.get_component::<Sprite>(g.player).unwrap();
    assert_eq!((s.width, s.height), (1, 1));
    assert_eq!(s.image, Some(vec![1, 2, 3, 4]));
}

#[test]
fn positions_follow_velocity() {
    let mut g = GameState::new(4, 4, tiny_sprite());
    let e = g.world.create_entity();
    g.world.add_component(e, Position { x: 10, y: 10 });
    g.world.add_component(e, Velocity { x: 2, y: -1 });
    g.update_entity_positions();
    assert_eq!(g.world.get_component::<Position>(e), Some(&Position { x: 12, y: 9 }));
    g.update_entity_positions();
    assert_eq!(g.world.get_component::<Position>(e), Some(&Position { x: 14, y: 8 }));
}

#[test]
fn velocity_without_position_is_inert() {
    let mut g = GameState::new(4, 4, tiny_sprite());
    let e = g.world.create_entity();
    g.world.add_component(e, Velocity { x: 3, y: 3 });
    g.update_entity_positions();
    assert_eq!(g.world.get_component::<Position>(e), None);
    assert_eq!(g.world.get_component::<Position>(g.player), Some(&Position { x: 100, y: 100 }));
}

#[test]
fn velocity_clamps_at_max() {
    let mut g = GameState::new(4, 4, tiny_sprite());
    for _ in 0..5 {
        g.update_player_velocity("right");
    }
    assert_eq!(player_velocity(&g).x, 5);
    assert_eq!(MAX_VELOCITY, 5);
    g.update_player_velocity("right");
    assert_eq!(player_velocity(&g).x, 5);
}

#[test]
fn reversal_stops_then_steps() {
    let mut g = GameState::new(4, 4, tiny_sprite());
    for _ in 0..3 {
        g.update_player_velocity("right");
    }
    assert_eq!(player_velocity(&g).x, 3);
    g.update_player_velocity("left");
    assert_ne!(player_velocity(&g).x, 2);
    assert_eq!(player_velocity(&g).x, -1);
    g.update_player_velocity("left");
    assert_eq!(player_velocity(&g).x, -2);
}

#[test]
fn vertical_impulses() {
    let mut g = GameState::new(4, 4, tiny_sprite());
    g.update_player_velocity("down");
    g.update_player_velocity("down");
    assert_eq!(player_velocity(&g), Velocity { x: 0, y: 2 });
    g.update_player_velocity("up");
    assert_eq!(player_velocity(&g), Velocity { x: 0, y: -1 });
    for _ in 0..7 {
        g.update_player_velocity("up");
    }
    assert_eq!(player_velocity(&g), Velocity { x: 0, y: -5 });
}

#[test]
fn unknown_direction_is_ignored() {
    let mut g = GameState::new(4, 4, tiny_sprite());
    g.update_player_velocity("right");
    g.update_player_velocity("sideways");
    g.update_player_velocity("");
    g.update_player_velocity("Right");
    assert_eq!(player_velocity(&g), Velocity { x: 1, y: 0 });
}

#[test]
fn zero_one_axis() {
    let mut g = GameState::new(4, 4, tiny_sprite());
    g.world.add_component(g.player, Velocity { x: 4, y: -3 });
    g.zero_player_vel(true, false);
    assert_eq!(player_velocity(&g), Velocity { x: 0, y: -3 });
    g.zero_player_vel(false, true);
    assert_eq!(player_velocity(&g), Velocity { x: 0, y: 0 });
}

#[test]
fn frame_has_background_and_sprite() {
    let sprite = Sprite::from_rgba(2, 1, vec![1, 2, 3, 4, 5, 6, 7, 8]).unwrap();
    let mut g = GameState::new(3, 2, sprite);
    g.world.add_component(g.player, Position { x: 1, y: 1 });
    let frame = g.generate_frame();
    let bg = [0x48u8, 0xb2, 0xe8, 0xff];
    let mut expected: Vec<u8> = Vec::new();
    for _ in 0..4 {
        expected.extend_from_slice(&bg);
    }
    expected.extend_from_slice(&[1, 2, 3, 4, 5, 6, 7, 8]);
    assert_eq!(frame.len(), 3 * 2 * 4);
    assert_eq!(frame, expected);
}

#[test]
fn frame_clips_sprite_off_screen() {
    let sprite = Sprite::from_rgba(2, 2, (0u8..16).collect()).unwrap();
    let mut g = GameState::new(2, 2, sprite);
    g.world.add_component(g.player, Position { x: -1, y: -1 });
    let frame = g.generate_frame();
    let bg = [0x48u8, 0xb2, 0xe8, 0xff];
    let mut expected: Vec<u8> = vec![12, 13, 14, 15];
    for _ in 0..3 {
        expected.extend_from_slice(&bg);
    }
    assert_eq!(frame, expected);
}

#[test]
fn frame_of_player_far_away_is_background() {
    let mut g = GameState::new(2, 1, tiny_sprite());
    let frame = g.generate_frame();
    assert_eq!(frame, vec![0x48, 0xb2, 0xe8, 0xff, 0x48, 0xb2, 0xe8, 0xff]);
}

#[test]
fn impulses_without_velocity_do_nothing() {
    let mut g = GameState::new(4, 4, tiny_sprite());
    let other = g.world.create_entity();
    g.player = other;
    g.update_player_velocity("up");
    g.zero_player_vel(true, true);
    assert_eq!(g.world.get_component::<Velocity>(other), None);
    assert_eq!(g.world.get_component::<Velocity>(Entity { id: 0 }), Some(&Velocity { x: 0, y: 0 }));
}

#[test]
fn frame_draws_from_longer_image() {
    let sprite = Sprite { width: 1, height: 1, image: Some(vec![9, 8, 7, 6, 5, 5, 5, 5]) };
    let mut g = GameState::new(2, 1, sprite);
    g.world.add_component(g.player, Position { x: 1, y: 0 });
    let frame = g.generate_frame();
    assert_eq!(frame, vec![0x48, 0xb2, 0xe8, 0xff, 9, 8, 7, 6]);
}

#[test]
fn new_game_state_others_have_nothing() {
    let mut g = GameState::new(2, 2, tiny_sprite());
    let e = g.world.create_entity();
    assert_eq!(e, Entity { id: 1 });
    assert!(g.world.get_component::<Position>(e).is_none());
    assert!(g.world.get_component::<Velocity>(e).is_none());
    assert!(g.world.get_component::<Size>(e).is_none());
    assert!(g.world.get_component::<Player>(e).is_none());
    assert!(g.world.get_component::<Sprite>(e).is_none());
}
