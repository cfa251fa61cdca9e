use sokoban::entity::Entity;
use sokoban::geometry::Vector2;
use sokoban::map::LevelMap;
use sokoban::motion::allowed_motion_before_collision;
use sokoban::motion::move_entity;
use sokoban::motion::move_player_with_push;
use sokoban::motion::PushPolicy;
use sokoban::geometry::Rect2;
use sokoban::sprite::AnimationInfo;
use sokoban::sprite::AnimationLane;
use sokoban::sprite::SpriteSheet;
use sokoban::tile::TileType;

/// An open floor of `cols` by `lines` tiles with walls at the given grid
/// positions (bottom-up coordinates).
fn open_map(cols: usize, lines: usize, walls: &[(usize, usize)]) -> LevelMap {
    let mut tiles = vec![TileType::Floor; cols * lines];
    for &(x, y) in walls {
        let file_row = lines - 1 - y;
        tiles[file_row * cols + x] = TileType::Wall;
    }
    LevelMap {
        name: b"test level".to_vec(),
        level_music: None,
        next_level: None,
        tiles,
        tiles_stride: cols,
        boxes: Vec::new(),
        box_sprite_width: 16,
        box_sprite_height: 16,
    }
}

fn unit_entity_at(x: i64, y: i64) -> Entity {
    Entity::new(Vector2::new(x, y), 1024, 1024, 1024, 1024)
}

#[test]
fn tile_at_flips_rows() {
    // file order: top row first
    let map = LevelMap {
        name: Vec::new(),
        level_music: None,
        next_level: None,
        tiles: vec![TileType::Wall, TileType::Floor, TileType::Floor, TileType::Target],
        tiles_stride: 2,
        boxes: Vec::new(),
        box_sprite_width: 0,
        box_sprite_height: 0,
    };
    assert_eq!(map.n_cols(), 2);
    assert_eq!(map.n_lines(), 2);
    assert_eq!(map.tile_at(0, 1), TileType::Wall);
    assert_eq!(map.tile_at(1, 1), TileType::Floor);
    assert_eq!(map.tile_at(0, 0), TileType::Floor);
    assert_eq!(map.tile_at(1, 0), TileType::Target);
}

#[test]
fn wall_blocks_small_movement_entirely() {
    let map = open_map(8, 8, &[(6, 5)]);
    let entity = unit_entity_at(5 * 1024, 5 * 1024);
    // any push short of a full tile is swallowed whole: no partial slide
    for m in [1i64, 100, 600, 1023] {
        let constrained = entity.collision_against_tiles(&map, Vector2::new(m, 0));
        assert_eq!(constrained, Vector2 { x: 0, y: 0 });
    }
    // a movement past the wall tests only the landing rectangle
    let constrained = entity.collision_against_tiles(&map, Vector2::new(1500, 0));
    assert_eq!(constrained, Vector2 { x: 0, y: 0 });
}

#[test]
fn open_floor_does_not_constrain() {
    let map = open_map(8, 8, &[]);
    let entity = unit_entity_at(5 * 1024, 5 * 1024);
    let movement = Vector2::new(600, -300);
    assert_eq!(entity.collision_against_tiles(&map, movement), movement);
}

#[test]
fn allowed_motion_is_all_or_nothing() {
    let moving = Rect2 { x0: 0, y0: 0, x1: 1024, y1: 1024 };
    let far = Rect2 { x0: 4096, y0: 0, x1: 5120, y1: 1024 };
    let overlapping = Rect2 { x0: 512, y0: 0, x1: 1536, y1: 1024 };
    assert_eq!(allowed_motion_before_collision(&moving, Vector2::new(1, 0), &far), 1024);
    assert_eq!(allowed_motion_before_collision(&moving, Vector2::new(1, 0), &overlapping), 0);
}

#[test]
fn collision_against_entities_first_hit_wins() {
    let a = unit_entity_at(3 * 1024, 2 * 1024);
    let b = unit_entity_at(3 * 1024, 2 * 1024);
    let far = unit_entity_at(7 * 1024, 7 * 1024);
    let player = unit_entity_at(2 * 1024, 2 * 1024);
    let entities = vec![far, a, b];
    let hit = player.collision_against_entities(&entities, Vector2::new(1, 0));
    assert_eq!(hit, 1);
    let none = player.collision_against_entities(&entities, Vector2::new(0, 0));
    assert_eq!(none, -1);
}

#[test]
fn move_entity_integrates_and_stops_at_walls() {
    let map = open_map(8, 8, &[(6, 5)]);
    let mut entity = unit_entity_at(5 * 1024, 5 * 1024);
    // a rightward force for 3 ms: acceleration 1024 * 172, velocity 528,
    // tentative movement 1 subunit -- blocked by the wall ahead
    move_entity(&mut entity, Vector2::new(500_000, 0), &map, 3);
    assert_eq!(entity.acceleration, Vector2 { x: 176128, y: 0 });
    assert_eq!(entity.velocity, Vector2 { x: 528, y: 0 });
    assert_eq!(entity.position, Vector2 { x: 5 * 1024, y: 5 * 1024 });

    // the same frame on an open floor moves the entity
    let open = open_map(8, 8, &[]);
    let mut runner = unit_entity_at(5 * 1024, 5 * 1024);
    move_entity(&mut runner, Vector2::new(500_000, 0), &open, 3);
    assert_eq!(runner.position, Vector2 { x: 5 * 1024 + 1, y: 5 * 1024 });
}

#[test]
fn push_chain_box_blocked_by_wall() {
    // player at (2,2), box at (3,2), wall at (4,2): a rightward push cannot
    // move the box
    let mut map = open_map(8, 8, &[(4, 2)]);
    map.add_box(3, 2);
    let mut player = unit_entity_at(2 * 1024, 2 * 1024);

    move_player_with_push(
        &mut player,
        &mut map,
        Vector2::new(500_000, 0),
        3,
        PushPolicy::PlayerKeepsMovement,
    );
    // the box stays put...
    assert_eq!(map.boxes[0].position, Vector2 { x: 3 * 1024, y: 2 * 1024 });
    // ...while under this policy the player's own movement still applies
    assert_eq!(player.position, Vector2 { x: 2 * 1024 + 1, y: 2 * 1024 });
}

#[test]
fn push_chain_player_matches_blocked_box() {
    let mut map = open_map(8, 8, &[(4, 2)]);
    map.add_box(3, 2);
    let mut player = unit_entity_at(2 * 1024, 2 * 1024);

    move_player_with_push(
        &mut player,
        &mut map,
        Vector2::new(500_000, 0),
        3,
        PushPolicy::PlayerMatchesBox,
    );
    assert_eq!(map.boxes[0].position, Vector2 { x: 3 * 1024, y: 2 * 1024 });
    // under the coupled policy the player stops with the box
    assert_eq!(player.position, Vector2 { x: 2 * 1024, y: 2 * 1024 });
}

#[test]
fn push_moves_free_box() {
    let mut map = open_map(8, 8, &[]);
    map.add_box(3, 2);
    let mut player = unit_entity_at(2 * 1024, 2 * 1024);

    move_player_with_push(
        &mut player,
        &mut map,
        Vector2::new(500_000, 0),
        3,
        PushPolicy::PlayerKeepsMovement,
    );
    assert_eq!(map.boxes[0].position, Vector2 { x: 3 * 1024 + 1, y: 2 * 1024 });
    assert_eq!(player.position, Vector2 { x: 2 * 1024 + 1, y: 2 * 1024 });
}

#[test]
fn win_requires_every_box_on_a_target() {
    let mut map = open_map(4, 4, &[]);
    let t11 = (4 - 1 - 1) * 4 + 1;
    let t22 = (4 - 1 - 2) * 4 + 2;
    map.tiles[t11] = TileType::Target;
    map.tiles[t22] = TileType::Target;
    map.add_box(1, 1);
    map.add_box(2, 2);
    assert!(map.all_boxes_on_targets());

    map.tiles[t11] = TileType::Floor;
    assert!(!map.all_boxes_on_targets());
}

#[test]
fn win_on_empty_box_list_is_immediate() {
    let map = open_map(4, 4, &[]);
    assert!(map.all_boxes_on_targets());
}

#[test]
fn centering_snaps_to_the_tile() {
    let mut e = Entity::new(Vector2::new(1500, 1400), 900, 800, 900, 800);
    e.center_on_current_tile_rect();
    // draw extents round up to one tile; half the slack centers the sprite
    assert_eq!(e.position, Vector2 { x: 1024 + (1024 - 900) / 2, y: 1024 + (1024 - 800) / 2 });
}

#[test]
fn animation_steps_and_wraps_frames() {
    let mut info = AnimationInfo::new(true, 10);
    assert_eq!(info.frame_time_ms, 100);
    info.animation_lanes.push(AnimationLane { number_of_frames: 3 });
    let mut sheet = SpriteSheet::new(48, 16, 16, 16, info);
    sheet.set_animation_lane_index(0);
    assert_eq!(sheet.sprite_y_offset, 0);

    sheet.animation_accumulate_dt(250);
    // 250 ms buys two full frames of 100 ms; 50 ms stays banked
    assert_eq!(sheet.animation_info.acc_dt_ms, 50);
    assert_eq!(sheet.animation_info.current_frame, 2);
    assert_eq!(sheet.sprite_x_offset, 32);

    sheet.animation_accumulate_dt(100);
    // one more frame wraps back to the start of the 3-frame lane
    assert_eq!(sheet.animation_info.current_frame, 0);
    assert_eq!(sheet.sprite_x_offset, 0);
}

#[test]
fn animation_ignores_time_without_a_lane() {
    let info = AnimationInfo::new(true, 10);
    let mut sheet = SpriteSheet::new(48, 16, 16, 16, info);
    sheet.animation_accumulate_dt(500);
    assert_eq!(sheet.animation_info.acc_dt_ms, 0);
    assert_eq!(sheet.animation_info.current_frame, 0);
}

#[test]
fn screen_transform_flips_y() {
    let p = sokoban::screen::tile_screen_position(2, 3, 40, 37, 592);
    assert_eq!(p, (80, 592 - 3 * 37 - 37));

    let r = sokoban::screen::entity_screen_rect(
        Vector2::new(2 * 1024, 3 * 1024),
        1024,
        2048,
        40,
        37,
        592,
    );
    assert_eq!(r, (80, 592 - 5 * 37, 40, 74));
}
