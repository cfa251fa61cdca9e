//! The level-authoring export: serialize a live map and player position back
//! into level-description and grid-file text, the inverse of the parsers.

use vstd::prelude::*;

use crate::entity::Entity;
use crate::level::push_bytes;
use crate::level::AssetType;
use crate::level::KEY_BOX_POSITIONS;
use crate::level::KEY_BOX_SPRITE_HEIGHT;
use crate::level::KEY_BOX_SPRITE_SHEET;
use crate::level::KEY_BOX_SPRITE_WIDTH;
use crate::level::KEY_FLOOR_TILE;
use crate::level::KEY_LEVEL_MUSIC;
use crate::level::KEY_LEVEL_NAME;
use crate::level::KEY_NEXT_LEVEL;
use crate::level::KEY_PLAYER_POSITION;
use crate::level::KEY_TARGET_TILE;
use crate::level::KEY_TILE_MAP;
use crate::level::KEY_WALL_TILE;
use crate::level::remove_asset_path;
use crate::level::spec_asset_prefix;
use crate::map::LevelMap;
use crate::text::spec_dec_digits;
use crate::text::u32_to_dec;
use crate::tile::TileType;

verus! {

/// The bytes of ` = `, the separator the writer puts around the sign.
pub const EQ_SEP: [u8; 3] = [32, 61, 32];

/// The bytes of `.map`, the grid-file extension.
pub const DOT_MAP: [u8; 4] = [46, 109, 97, 112];

/// One tile as the grid writer prints it: its code and a trailing space.
pub open spec fn spec_tile_entry(t: TileType) -> Seq<u8> {
    spec_dec_digits(t.spec_to_code() as int) + seq![32u8]
}

/// The grid text from a tile position onward: a line feed before every row
/// but the first, tiles separated by single spaces with one trailing space
/// per tile and no final newline.
pub open spec fn spec_map_rows(tiles: Seq<TileType>, stride: int, col: int) -> Seq<u8>
    decreases tiles.len(),
{
    if tiles.len() == 0 {
        Seq::empty()
    } else {
        let sep: Seq<u8> = if col == stride {
            seq![10u8]
        } else {
            Seq::empty()
        };
        let next_col: int = if col == stride {
            1
        } else {
            col + 1
        };
        sep + spec_tile_entry(tiles[0]) + spec_map_rows(tiles.drop_first(), stride, next_col)
    }
}

/// What the grid-file writer produces for a map.
pub open spec fn spec_map_file_text(tiles: Seq<TileType>, stride: int) -> Seq<u8> {
    spec_map_rows(tiles, stride, 0)
}

/// Serialize the tile grid: rows of tile codes in storage (file) order.
/// Re-parsing the text yields the same tiles, code collapse aside: every
/// code written decodes to the tile it was written from.
pub fn map_file_text(map: &LevelMap) -> (out: Vec<u8>)
    requires
        map.wf(),
    ensures
        out@ == spec_map_file_text(map.tiles@, map.tiles_stride as int),
{
    let mut out: Vec<u8> = Vec::new();
    let mut current_col: usize = 0;
    let mut i: usize = 0;
    proof {
        assert(out@ + spec_map_rows(map.tiles@, map.tiles_stride as int, 0) =~= spec_map_rows(
            map.tiles@,
            map.tiles_stride as int,
            0,
        ));
        assert(map.tiles@.subrange(0, map.tiles@.len() as int) =~= map.tiles@);
    }
    while i < map.tiles.len()
        invariant
            map.wf(),
            0 <= i <= map.tiles@.len(),
            current_col <= map.tiles_stride,
            spec_map_file_text(map.tiles@, map.tiles_stride as int) == out@ + spec_map_rows(
                map.tiles@.subrange(i as int, map.tiles@.len() as int),
                map.tiles_stride as int,
                current_col as int,
            ),
        decreases map.tiles@.len() - i,
    {
        let ghost rest = map.tiles@.subrange(i as int, map.tiles@.len() as int);
        proof {
            assert(rest[0] == map.tiles@[i as int]);
            assert(rest.drop_first() =~= map.tiles@.subrange(
                i as int + 1,
                map.tiles@.len() as int,
            ));
        }
        let ghost out_pre = out@;
        let ghost entry_col = current_col as int;
        if current_col == map.tiles_stride {
            out.push(10);
            current_col = 0;
        }
        let tile = map.tiles[i];
        let digits = u32_to_dec(tile.to_code());
        push_bytes(&mut out, digits.as_slice());
        out.push(32);
        current_col += 1;
        proof {
            let sep: Seq<u8> = if entry_col == map.tiles_stride {
                seq![10u8]
            } else {
                Seq::empty()
            };
            assert(out@ =~= out_pre + sep + spec_tile_entry(map.tiles@[i as int]));
            assert(out_pre + sep + spec_tile_entry(map.tiles@[i as int]) + spec_map_rows(
                rest.drop_first(),
                map.tiles_stride as int,
                current_col as int,
            ) =~= out_pre + (sep + spec_tile_entry(map.tiles@[i as int]) + spec_map_rows(
                rest.drop_first(),
                map.tiles_stride as int,
                current_col as int,
            )));
        }
        i += 1;
    }
    proof {
        assert(map.tiles@.subrange(map.tiles@.len() as int, map.tiles@.len() as int)
            =~= Seq::<TileType>::empty());
        assert(out@ + Seq::<u8>::empty() =~= out@);
    }
    out
}

/// One position tuple as the writer prints it.
pub open spec fn spec_tuple_text(x: int, y: int) -> Seq<u8> {
    seq![40u8] + spec_dec_digits(x) + seq![44u8, 32u8] + spec_dec_digits(y) + seq![41u8]
}

/// The box positions joined by `, `, each written as the tile its position
/// truncates to.
pub open spec fn spec_boxes_text(boxes: Seq<Entity>, first: bool) -> Seq<u8>
    decreases boxes.len(),
{
    if boxes.len() == 0 {
        Seq::empty()
    } else {
        let sep: Seq<u8> = if first {
            Seq::empty()
        } else {
            seq![44u8, 32u8]
        };
        sep + spec_tuple_text(
            boxes[0].position.x as int / 1024,
            boxes[0].position.y as int / 1024,
        ) + spec_boxes_text(boxes.drop_first(), false)
    }
}

/// One `key = value` line with a trailing line feed.
pub open spec fn spec_kv_line(key: Seq<u8>, value: Seq<u8>) -> Seq<u8> {
    key + EQ_SEP@ + value + seq![10u8]
}

/// What the level-file writer produces: the level's metadata and entity
/// placements as `key = value` lines, in the writer's fixed order, with the
/// grid file referenced as `<name>.map`.
pub open spec fn spec_level_file_text(
    map: LevelMap,
    wall_name: Seq<u8>,
    floor_name: Seq<u8>,
    target_name: Seq<u8>,
    box_sheet_name: Seq<u8>,
    player_position: (u32, u32),
    level_file_name: Seq<u8>,
) -> Seq<u8> {
    spec_kv_line(KEY_LEVEL_NAME@, map.name@) + (match map.level_music {
        Option::None => Seq::<u8>::empty(),
        Option::Some(p) => spec_kv_line(
            KEY_LEVEL_MUSIC@,
            p@.subrange(spec_asset_prefix(AssetType::Sound).len() as int, p@.len() as int),
        ),
    }) + (match map.next_level {
        Option::None => Seq::<u8>::empty(),
        Option::Some(p) => spec_kv_line(
            KEY_NEXT_LEVEL@,
            p@.subrange(spec_asset_prefix(AssetType::Level).len() as int, p@.len() as int),
        ) + seq![10u8],
    }) + spec_kv_line(KEY_WALL_TILE@, wall_name) + spec_kv_line(KEY_FLOOR_TILE@, floor_name)
        + spec_kv_line(KEY_TARGET_TILE@, target_name) + seq![10u8] + spec_kv_line(
        KEY_PLAYER_POSITION@,
        spec_tuple_text(player_position.0 as int, player_position.1 as int),
    ) + seq![10u8] + spec_kv_line(KEY_BOX_SPRITE_SHEET@, box_sheet_name) + spec_kv_line(
        KEY_BOX_SPRITE_WIDTH@,
        spec_dec_digits(map.box_sprite_width as int),
    ) + spec_kv_line(KEY_BOX_SPRITE_HEIGHT@, spec_dec_digits(map.box_sprite_height as int))
        + KEY_BOX_POSITIONS@ + EQ_SEP@ + seq![123u8] + spec_boxes_text(map.boxes@, true) + seq![
        125u8,
        10u8,
        10u8,
    ] + KEY_TILE_MAP@ + EQ_SEP@ + level_file_name + DOT_MAP@
}

/// Append one `key = value` line.
fn push_kv_line(out: &mut Vec<u8>, key: &[u8], value: &[u8])
    ensures
        final(out)@ == old(out)@ + spec_kv_line(key@, value@),
{
    push_bytes(out, key);
    push_bytes(out, EQ_SEP.as_slice());
    push_bytes(out, value);
    out.push(10);
    proof {
        assert(out@ =~= old(out)@ + spec_kv_line(key@, value@));
    }
}

/// Append one position tuple.
fn push_tuple(out: &mut Vec<u8>, x: u32, y: u32)
    ensures
        final(out)@ == old(out)@ + spec_tuple_text(x as int, y as int),
{
    out.push(40);
    let xd = u32_to_dec(x);
    push_bytes(out, xd.as_slice());
    out.push(44);
    out.push(32);
    let yd = u32_to_dec(y);
    push_bytes(out, yd.as_slice());
    out.push(41);
    proof {
        assert(out@ =~= old(out)@ + spec_tuple_text(x as int, y as int));
    }
}

/// Serialize a level description from a live map: the inverse of the level
/// parser for the fields the map retains, with asset prefixes stripped back
/// off the stored music and follow-up level paths. The map must hold at
/// least one box, and the stored paths must still carry their prefixes.
#[verifier::rlimit(60)]
pub fn level_file_text(
    map: &LevelMap,
    wall_name: &[u8],
    floor_name: &[u8],
    target_name: &[u8],
    box_sheet_name: &[u8],
    player_position: (u32, u32),
    level_file_name: &[u8],
) -> (out: Vec<u8>)
    requires
        map.wf(),
        map.boxes@.len() > 0,
        match map.level_music {
            Option::None => true,
            Option::Some(p) => p@.len() >= spec_asset_prefix(AssetType::Sound).len(),
        },
        match map.next_level {
            Option::None => true,
            Option::Some(p) => p@.len() >= spec_asset_prefix(AssetType::Level).len(),
        },
        forall|i: int|
            0 <= i < map.boxes@.len() ==> 0 <= (#[trigger] map.boxes@[i]).position.x
                <= 0x200_0000 && 0 <= map.boxes@[i].position.y <= 0x200_0000,
    ensures
        out@ == spec_level_file_text(
            *map,
            wall_name@,
            floor_name@,
            target_name@,
            box_sheet_name@,
            player_position,
            level_file_name@,
        ),
{
    let mut out: Vec<u8> = Vec::new();
    push_kv_line(&mut out, KEY_LEVEL_NAME.as_slice(), map.name.as_slice());

    match &map.level_music {
        Option::None => {},
        Option::Some(p) => {
            let stripped = remove_asset_path(AssetType::Sound, p.as_slice());
            push_kv_line(&mut out, KEY_LEVEL_MUSIC.as_slice(), stripped);
        },
    }
    match &map.next_level {
        Option::None => {},
        Option::Some(p) => {
            let stripped = remove_asset_path(AssetType::Level, p.as_slice());
            push_kv_line(&mut out, KEY_NEXT_LEVEL.as_slice(), stripped);
            out.push(10);
        },
    }

    push_kv_line(&mut out, KEY_WALL_TILE.as_slice(), wall_name);
    push_kv_line(&mut out, KEY_FLOOR_TILE.as_slice(), floor_name);
    push_kv_line(&mut out, KEY_TARGET_TILE.as_slice(), target_name);
    out.push(10);

    push_bytes(&mut out, KEY_PLAYER_POSITION.as_slice());
    push_bytes(&mut out, EQ_SEP.as_slice());
    push_tuple(&mut out, player_position.0, player_position.1);
    out.push(10);
    out.push(10);

    push_kv_line(&mut out, KEY_BOX_SPRITE_SHEET.as_slice(), box_sheet_name);
    let wd = u32_to_dec(map.box_sprite_width);
    push_kv_line(&mut out, KEY_BOX_SPRITE_WIDTH.as_slice(), wd.as_slice());
    let hd = u32_to_dec(map.box_sprite_height);
    push_kv_line(&mut out, KEY_BOX_SPRITE_HEIGHT.as_slice(), hd.as_slice());

    push_bytes(&mut out, KEY_BOX_POSITIONS.as_slice());
    push_bytes(&mut out, EQ_SEP.as_slice());
    out.push(123);

    let ghost before_boxes = out@;
    let mut i: usize = 0;
    proof {
        assert(out@ + spec_boxes_text(map.boxes@, true) =~= before_boxes + spec_boxes_text(
            map.boxes@,
            true,
        ));
        assert(map.boxes@.subrange(0, map.boxes@.len() as int) =~= map.boxes@);
    }
    while i < map.boxes.len()
        invariant
            0 <= i <= map.boxes@.len(),
            map.wf(),
            forall|k: int|
                0 <= k < map.boxes@.len() ==> 0 <= (#[trigger] map.boxes@[k]).position.x
                    <= 0x200_0000 && 0 <= map.boxes@[k].position.y <= 0x200_0000,
            before_boxes + spec_boxes_text(map.boxes@, true) == out@ + spec_boxes_text(
                map.boxes@.subrange(i as int, map.boxes@.len() as int),
                i == 0,
            ),
        decreases map.boxes@.len() - i,
    {
        let ghost rest = map.boxes@.subrange(i as int, map.boxes@.len() as int);
        proof {
            assert(rest[0] == map.boxes@[i as int]);
            assert(rest.drop_first() =~= map.boxes@.subrange(
                i as int + 1,
                map.boxes@.len() as int,
            ));
        }
        let ghost out_pre = out@;
        if i != 0 {
            out.push(44);
            out.push(32);
        }
        let b = &map.boxes[i];
        proof {
            vstd::arithmetic::div_mod::lemma_div_pos_is_pos(b.position.x as int, 1024);
            vstd::arithmetic::div_mod::lemma_div_pos_is_pos(b.position.y as int, 1024);
            vstd::arithmetic::div_mod::lemma_div_is_ordered(b.position.x as int, 0x200_0000, 1024);
            vstd::arithmetic::div_mod::lemma_div_is_ordered(b.position.y as int, 0x200_0000, 1024);
        }
        let tx = (b.position.x / 1024) as u32;
        let ty = (b.position.y / 1024) as u32;
        push_tuple(&mut out, tx, ty);
        proof {
            let sep: Seq<u8> = if i == 0 {
                Seq::empty()
            } else {
                seq![44u8, 32u8]
            };
            assert(out@ =~= out_pre + sep + spec_tuple_text(
                map.boxes@[i as int].position.x as int / 1024,
                map.boxes@[i as int].position.y as int / 1024,
            ));
            assert(out_pre + sep + spec_tuple_text(
                map.boxes@[i as int].position.x as int / 1024,
                map.boxes@[i as int].position.y as int / 1024,
            ) + spec_boxes_text(rest.drop_first(), false) =~= out_pre + (sep + spec_tuple_text(
                map.boxes@[i as int].position.x as int / 1024,
                map.boxes@[i as int].position.y as int / 1024,
            ) + spec_boxes_text(rest.drop_first(), false)));
        }
        i += 1;
    }
    proof {
        assert(map.boxes@.subrange(map.boxes@.len() as int, map.boxes@.len() as int)
            =~= Seq::<Entity>::empty());
        assert(out@ + Seq::<u8>::empty() =~= out@);
    }

    out.push(125);
    out.push(10);
    out.push(10);

    push_bytes(&mut out, KEY_TILE_MAP.as_slice());
    push_bytes(&mut out, EQ_SEP.as_slice());
    push_bytes(&mut out, level_file_name);
    push_bytes(&mut out, DOT_MAP.as_slice());

    proof {
        assert(out@ =~= spec_level_file_text(
            *map,
            wall_name@,
            floor_name@,
            target_name@,
            box_sheet_name@,
            player_position,
            level_file_name@,
        ));
    }
    out
}

} // verus!
