use sokoban::geometry::isqrt;
use sokoban::geometry::Rect2;
use sokoban::geometry::Vector2;
use sokoban::map::from_left_to_right_handed;
use sokoban::tile::TileType;

#[test]
fn normalize_zero_vector_stays_zero() {
    let mut v = Vector2 { x: 0, y: 0 };
    v.normalize_or_zero();
    assert_eq!(v, Vector2 { x: 0, y: 0 });
}

#[test]
fn normalize_scales_to_one_tile() {
    // magnitude 5000: a 3-4-5 triangle scaled up
    let mut v = Vector2 { x: 3000, y: 4000 };
    v.normalize_or_zero();
    assert_eq!(v.x, 3000 * 1024 / 5000);
    assert_eq!(v.y, 4000 * 1024 / 5000);
}

#[test]
fn normalize_twice_is_normalize_once_on_diagonal() {
    let mut once = Vector2 { x: 1024, y: 1024 };
    once.normalize_or_zero();
    let mut twice = once;
    twice.normalize_or_zero();
    assert_eq!(once, twice);
    assert_eq!(once, Vector2 { x: 724, y: 724 });
}

#[test]
fn normalize_keeps_axis_unit_vectors() {
    let mut v = Vector2 { x: 1024, y: 0 };
    v.normalize_or_zero();
    assert_eq!(v, Vector2 { x: 1024, y: 0 });
    let mut w = Vector2 { x: 0, y: -1024 };
    w.normalize_or_zero();
    assert_eq!(w, Vector2 { x: 0, y: -1024 });
}

#[test]
fn isqrt_exact_values() {
    assert_eq!(isqrt(0), 0);
    assert_eq!(isqrt(1), 1);
    assert_eq!(isqrt(3), 1);
    assert_eq!(isqrt(4), 2);
    assert_eq!(isqrt(25_000_000), 5000);
    assert_eq!(isqrt(u64::MAX), 0xFFFF_FFFF);
}

#[test]
fn touching_rects_do_not_collide() {
    let a = Rect2 { x0: 0, y0: 0, x1: 1024, y1: 1024 };
    let b = Rect2 { x0: 1024, y0: 0, x1: 2048, y1: 1024 };
    assert!(a.collides_with(&b).is_none());
    assert!(b.collides_with(&a).is_none());
}

#[test]
fn coincident_rects_do_not_collide() {
    let a = Rect2 { x0: 0, y0: 0, x1: 1024, y1: 1024 };
    assert!(a.collides_with(&a).is_none());
}

#[test]
fn collision_from_the_right_reports_left_edge() {
    // `a` pokes into `b` from the left side of `b`: struck from the right,
    // the reported direction is b's left edge, top-to-bottom
    let a = Rect2 { x0: 100, y0: 0, x1: 1124, y1: 1024 };
    let b = Rect2 { x0: 1024, y0: 0, x1: 2048, y1: 1024 };
    assert_eq!(a.collides_with(&b), Some(Vector2 { x: 0, y: -1024 }));
}

#[test]
fn collision_from_below_reports_bottom_edge() {
    let a = Rect2 { x0: 0, y0: 100, x1: 1024, y1: 1124 };
    let b = Rect2 { x0: 0, y0: 1024, x1: 1024, y1: 2048 };
    assert_eq!(a.collides_with(&b), Some(Vector2 { x: 1024, y: 0 }));
}

#[test]
fn collision_commutes_with_translation() {
    let r = Rect2 { x0: 100, y0: 200, x1: 1124, y1: 1224 };
    let f = Rect2 { x0: 1024, y0: 0, x1: 2048, y1: 1024 };
    let t = Vector2 { x: 300, y: -150 };
    let lhs = r.translate(t).collides_with(&f);
    let rhs = r.collides_with(&f.translate(t.negated()));
    assert_eq!(lhs, rhs);
}

#[test]
fn bounding_rect_covers_both() {
    let a = Rect2 { x0: 0, y0: 500, x1: 1000, y1: 1500 };
    let b = Rect2 { x0: -200, y0: 700, x1: 800, y1: 2000 };
    let c = Rect2::bounding_rect(&a, &b);
    assert_eq!(c, Rect2 { x0: -200, y0: 500, x1: 1000, y1: 2000 });
}

#[test]
fn rect_corner_accessors() {
    let r = Rect2 { x0: 1, y0: 2, x1: 3, y1: 4 };
    assert_eq!(r.lower_left(), Vector2 { x: 1, y: 2 });
    assert_eq!(r.lower_right(), Vector2 { x: 3, y: 2 });
    assert_eq!(r.upper_left(), Vector2 { x: 1, y: 4 });
    assert_eq!(r.upper_right(), Vector2 { x: 3, y: 4 });
}

#[test]
fn rect_from_point_and_dimensions() {
    let r = Rect2::from_point_and_dimensions(Vector2 { x: 10, y: 20 }, 30, 40);
    assert_eq!(r, Rect2 { x0: 10, y0: 20, x1: 40, y1: 60 });
}

#[test]
fn tile_codes_round_trip() {
    for code in 0u32..=5 {
        let tile = TileType::from_code(code).unwrap();
        let rewritten = tile.to_code();
        assert_eq!(TileType::from_code(rewritten), Some(tile));
    }
    assert_eq!(TileType::from_code(6), None);
}

#[test]
fn tile_solidity() {
    assert!(TileType::Wall.is_solid());
    assert!(!TileType::Floor.is_solid());
    assert!(!TileType::Target.is_solid());
    assert!(!TileType::Blank.is_solid());
}

#[test]
fn row_flip_is_an_involution() {
    for row in 0u32..10 {
        let flipped = from_left_to_right_handed((7, row), 10);
        let back = from_left_to_right_handed(flipped, 10);
        assert_eq!(back, (7, row));
    }
}
