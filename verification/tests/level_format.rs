use sokoban::export::level_file_text;
use sokoban::export::map_file_text;
use sokoban::grid::parse_tile_grid;
use sokoban::grid::GridError;
use sokoban::level::asset_path_string;
use sokoban::level::create_player;
use sokoban::level::parse_level;
use sokoban::level::parse_position_tuple;
use sokoban::level::parse_position_tuple_vec;
use sokoban::level::remove_asset_path;
use sokoban::level::trim_slice;
use sokoban::level::AssetType;
use sokoban::level::LevelError;
use sokoban::map::LevelMap;
use sokoban::text::parse_u32;
use sokoban::text::u32_to_dec;
use sokoban::tile::TileType;

const LEVEL_TEXT: &[u8] = b"// a minimal level\n\
level_name = First Steps\n\
wall_tile = wall.bmp\n\
floor_tile = floor.bmp\n\
target_tile = target.bmp\n\
box_sprite_sheet = box.bmp\n\
box_sprite_width = 16\n\
box_sprite_height = 16\n\
tile_map = first.map\n\
player_position = (0, 0)\n\
box_positions = {(1, 1)}\n";

const GRID_TEXT: &[u8] = b"0 1 0\n0 0 0\n0 0 4\n";

#[test]
fn parse_u32_accepts_plain_and_signed_plus() {
    assert_eq!(parse_u32(b"16"), Some(16));
    assert_eq!(parse_u32(b"+7"), Some(7));
    assert_eq!(parse_u32(b"0"), Some(0));
    assert_eq!(parse_u32(b"4294967295"), Some(u32::MAX));
}

#[test]
fn parse_u32_rejects_junk_and_overflow() {
    assert_eq!(parse_u32(b""), None);
    assert_eq!(parse_u32(b"+"), None);
    assert_eq!(parse_u32(b"-5"), None);
    assert_eq!(parse_u32(b"12a"), None);
    assert_eq!(parse_u32(b"4294967296"), None);
}

#[test]
fn decimal_printing() {
    assert_eq!(u32_to_dec(0), b"0".to_vec());
    assert_eq!(u32_to_dec(1234), b"1234".to_vec());
    assert_eq!(u32_to_dec(u32::MAX), b"4294967295".to_vec());
}

#[test]
fn trim_strips_both_ends() {
    assert_eq!(trim_slice(b"  abc\t "), b"abc");
    assert_eq!(trim_slice(b"abc"), b"abc");
    assert_eq!(trim_slice(b"   "), b"");
    assert_eq!(trim_slice(b""), b"");
}

#[test]
fn position_tuple_happy_path() {
    assert_eq!(parse_position_tuple(b"(3, 4)"), Some((3, 4)));
    assert_eq!(parse_position_tuple(b"(3,4)"), Some((3, 4)));
    assert_eq!(parse_position_tuple(b"( 12,  7 )"), Some((12, 7)));
    // the tuple is searched for, not anchored
    assert_eq!(parse_position_tuple(b"start at (5, 6), please"), Some((5, 6)));
}

#[test]
fn position_tuple_rejections() {
    // no space is allowed between the first number and the comma
    assert_eq!(parse_position_tuple(b"(3 , 4)"), None);
    // the grammar admits a sign, but positions are unsigned
    assert_eq!(parse_position_tuple(b"(-3, 4)"), None);
    assert_eq!(parse_position_tuple(b"(3; 4)"), None);
    assert_eq!(parse_position_tuple(b"3, 4"), None);
    assert_eq!(parse_position_tuple(b""), None);
}

#[test]
fn tuple_list_happy_path() {
    assert_eq!(parse_position_tuple_vec(b"{(1, 2)}"), Some(vec![(1, 2)]));
    assert_eq!(
        parse_position_tuple_vec(b"{(1,2), (3, 4), ( 5, 6 )}"),
        Some(vec![(1, 2), (3, 4), (5, 6)])
    );
    // a list found mid-text still parses
    assert_eq!(parse_position_tuple_vec(b"boxes: {(1, 2)} end"), Some(vec![(1, 2)]));
}

#[test]
fn tuple_list_rejections() {
    assert_eq!(parse_position_tuple_vec(b"{}"), None);
    assert_eq!(parse_position_tuple_vec(b"{(1, 2) (3, 4)}"), None);
    assert_eq!(parse_position_tuple_vec(b"{(1, 2), }"), None);
    assert_eq!(parse_position_tuple_vec(b"{(1, -2)}"), None);
    assert_eq!(parse_position_tuple_vec(b"(1, 2)"), None);
}

#[test]
fn grid_parses_rows_in_file_order() {
    let (tiles, stride) = parse_tile_grid(GRID_TEXT).unwrap();
    assert_eq!(stride, 3);
    assert_eq!(tiles.len(), 9);
    assert_eq!(tiles[1], TileType::Wall);
    assert_eq!(tiles[8], TileType::Target);
    assert_eq!(tiles[0], TileType::Floor);
}

#[test]
fn grid_skips_blank_lines_and_handles_crlf() {
    let (tiles, stride) = parse_tile_grid(b"1 1\r\n\r\n0 4\r\n").unwrap();
    assert_eq!(stride, 2);
    assert_eq!(tiles, vec![TileType::Wall, TileType::Wall, TileType::Floor, TileType::Target]);
}

#[test]
fn grid_rejects_uneven_rows() {
    assert_eq!(parse_tile_grid(b"1 2\n3"), Err(GridError::UnevenRows));
}

#[test]
fn grid_rejects_unknown_codes_and_bad_numbers() {
    assert_eq!(parse_tile_grid(b"9"), Err(GridError::UnknownCode));
    assert_eq!(parse_tile_grid(b"x"), Err(GridError::MalformedNumber));
    assert_eq!(parse_tile_grid(b"1 x"), Err(GridError::MalformedNumber));
}

#[test]
fn grid_start_codes_decode_to_floor() {
    let (tiles, _) = parse_tile_grid(b"2 3").unwrap();
    assert_eq!(tiles, vec![TileType::Floor, TileType::Floor]);
}

#[test]
fn empty_grid_text_is_an_empty_grid() {
    let (tiles, stride) = parse_tile_grid(b"").unwrap();
    assert_eq!(stride, 0);
    assert!(tiles.is_empty());
}

#[test]
fn level_parse_happy_path() {
    let parsed = parse_level(LEVEL_TEXT).unwrap();
    assert_eq!(parsed.level_name, b"First Steps".to_vec());
    assert_eq!(parsed.level_music, None);
    assert_eq!(parsed.wall_tile, b"wall.bmp".to_vec());
    assert_eq!(parsed.floor_tile, b"floor.bmp".to_vec());
    assert_eq!(parsed.target_tile, b"target.bmp".to_vec());
    assert_eq!(parsed.box_sprite_sheet, b"box.bmp".to_vec());
    assert_eq!(parsed.box_sprite_width, 16);
    assert_eq!(parsed.box_sprite_height, 16);
    assert_eq!(parsed.tile_map, b"first.map".to_vec());
    assert_eq!(parsed.player_position, (0, 0));
    assert_eq!(parsed.box_positions, vec![(1, 1)]);

    let (tiles, stride) = parse_tile_grid(GRID_TEXT).unwrap();
    let map = LevelMap::from_level(&parsed, tiles, stride);
    assert_eq!(map.n_cols(), 3);
    assert_eq!(map.n_lines(), 3);
    assert_eq!(map.boxes.len(), 1);
    assert_eq!(map.name, b"First Steps".to_vec());

    // the player lands centered inside its declared start tile
    let player = create_player(parsed.player_position, 16, 16);
    assert!(player.position.x >= 0 && player.position.x < 1024);
    assert!(player.position.y >= 0 && player.position.y < 1024);
}

#[test]
fn level_missing_name_is_fatal() {
    let text = b"wall_tile = wall.bmp\n\
floor_tile = floor.bmp\n\
target_tile = target.bmp\n\
box_sprite_sheet = box.bmp\n\
box_sprite_width = 16\n\
box_sprite_height = 16\n\
tile_map = first.map\n\
player_position = (0, 0)\n\
box_positions = {(1, 1)}\n";
    assert_eq!(parse_level(text), Err(LevelError::MissingLevelName));
}

#[test]
fn level_missing_fields_report_in_order() {
    assert_eq!(parse_level(b"level_name = x\n"), Err(LevelError::MissingWallTile));
    let no_positions = b"level_name = x\n\
wall_tile = w\nfloor_tile = f\ntarget_tile = t\n\
box_sprite_sheet = b\nbox_sprite_width = 1\nbox_sprite_height = 1\n\
tile_map = m\nplayer_position = (0,0)\n";
    assert_eq!(parse_level(no_positions), Err(LevelError::MissingBoxPositions));
}

#[test]
fn level_line_without_assignment_aborts() {
    assert_eq!(parse_level(b"level_name = x\nnonsense\n"), Err(LevelError::NoAssignment));
}

#[test]
fn level_unknown_keys_and_comments_are_ignored() {
    let text = b"// comment\n\
mystery_key = 42\n\
level_name = x\n\
wall_tile = w\nfloor_tile = f\ntarget_tile = t\n\
box_sprite_sheet = b\nbox_sprite_width = 1\nbox_sprite_height = 1\n\
tile_map = m\nplayer_position = (0,0)\nbox_positions = {(1,1)}\n";
    let parsed = parse_level(text).unwrap();
    assert_eq!(parsed.level_name, b"x".to_vec());
}

#[test]
fn level_malformed_tuple_clears_the_field() {
    let text = b"level_name = x\n\
wall_tile = w\nfloor_tile = f\ntarget_tile = t\n\
box_sprite_sheet = b\nbox_sprite_width = 1\nbox_sprite_height = 1\n\
tile_map = m\nplayer_position = (0 , 0)\nbox_positions = {(1,1)}\n";
    assert_eq!(parse_level(text), Err(LevelError::MissingPlayerPosition));
}

#[test]
fn asset_paths_resolve_per_kind() {
    assert_eq!(asset_path_string(AssetType::Sprite, b"wall.bmp"), b"assets/wall.bmp".to_vec());
    assert_eq!(asset_path_string(AssetType::Sound, b"tune.ogg"), b"assets/tune.ogg".to_vec());
    assert_eq!(asset_path_string(AssetType::TileMap, b"a.map"), b"assets/maps/a.map".to_vec());
    assert_eq!(asset_path_string(AssetType::Level, b"a.lvl"), b"assets/maps/a.lvl".to_vec());
}

#[test]
fn asset_path_round_trip() {
    let path = asset_path_string(AssetType::Level, b"one.lvl");
    assert_eq!(remove_asset_path(AssetType::Level, &path), b"one.lvl");
    let sound = asset_path_string(AssetType::Sound, b"tune.ogg");
    assert_eq!(remove_asset_path(AssetType::Sound, &sound), b"tune.ogg");
}

#[test]
fn map_file_text_writes_rows_back() {
    let (tiles, stride) = parse_tile_grid(GRID_TEXT).unwrap();
    let map = LevelMap {
        name: b"x".to_vec(),
        level_music: None,
        next_level: None,
        tiles,
        tiles_stride: stride,
        boxes: Vec::new(),
        box_sprite_width: 16,
        box_sprite_height: 16,
    };
    let text = map_file_text(&map);
    assert_eq!(text, b"0 1 0 \n0 0 0 \n0 0 4 ".to_vec());
    // and the written text parses back to the same tiles
    let (tiles2, stride2) = parse_tile_grid(&text).unwrap();
    assert_eq!(stride2, stride);
    assert_eq!(tiles2, map.tiles);
}

#[test]
fn level_file_text_round_trips_through_the_parser() {
    let parsed = parse_level(LEVEL_TEXT).unwrap();
    let (tiles, stride) = parse_tile_grid(GRID_TEXT).unwrap();
    let map = LevelMap::from_level(&parsed, tiles, stride);
    let text = level_file_text(
        &map,
        b"wall.bmp",
        b"floor.bmp",
        b"target.bmp",
        b"box.bmp",
        (0, 0),
        b"first",
    );
    let reparsed = parse_level(&text).unwrap();
    assert_eq!(reparsed.level_name, parsed.level_name);
    assert_eq!(reparsed.wall_tile, parsed.wall_tile);
    assert_eq!(reparsed.floor_tile, parsed.floor_tile);
    assert_eq!(reparsed.target_tile, parsed.target_tile);
    assert_eq!(reparsed.box_sprite_sheet, parsed.box_sprite_sheet);
    assert_eq!(reparsed.box_sprite_width, parsed.box_sprite_width);
    assert_eq!(reparsed.box_sprite_height, parsed.box_sprite_height);
    assert_eq!(reparsed.player_position, parsed.player_position);
    assert_eq!(reparsed.box_positions, parsed.box_positions);
    assert_eq!(reparsed.tile_map, b"first.map".to_vec());
}

#[test]
fn level_file_text_keeps_music_reference() {
    let with_music = b"level_name = x\nlevel_music = tune.ogg\n\
wall_tile = w\nfloor_tile = f\ntarget_tile = t\n\
box_sprite_sheet = b\nbox_sprite_width = 1\nbox_sprite_height = 1\n\
tile_map = m\nplayer_position = (0,0)\nbox_positions = {(1,1)}\n";
    let parsed = parse_level(with_music).unwrap();
    let (tiles, stride) = parse_tile_grid(b"0").unwrap();
    let map = LevelMap::from_level(&parsed, tiles, stride);
    // the map stores the resolved path...
    assert_eq!(map.level_music, Some(b"assets/tune.ogg".to_vec()));
    let text = level_file_text(&map, b"w", b"f", b"t", b"b", (0, 0), b"x");
    // ...and the writer strips the prefix back off
    let reparsed = parse_level(&text).unwrap();
    assert_eq!(reparsed.level_music, Some(b"tune.ogg".to_vec()));
}
