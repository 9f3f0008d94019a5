use raycaster::angle::{cos_of, sin_of, turn, FULL_TURN, TRIG_ONE};
use raycaster::dda::cast;
use raycaster::framebuffer::Framebuffer;
use raycaster::grid::{GridMap, MapError, UNITS_PER_CELL};
use raycaster::player::{Player, DEFAULT_FOV};
use raycaster::render::{cast_ray, project, RayCasting, SHADE_X, SHADE_Y};
use raycaster::scene::{
    draw_2d_map, draw_digit, draw_minimap, draw_text, render_scene, COLOR_FLOOR, COLOR_WALL,
    MINIMAP_PLAYER,
};

const U: u64 = UNITS_PER_CELL;

fn bordered(n: usize) -> Vec<Vec<u8>> {
    let mut rows = Vec::new();
    for y in 0..n {
        let mut row = Vec::new();
        for x in 0..n {
            row.push(if x == 0 || y == 0 || x == n - 1 || y == n - 1 { 1 } else { 0 });
        }
        rows.push(row);
    }
    rows
}

fn open_map(n: usize) -> GridMap {
    GridMap::new(bordered(n)).unwrap()
}

fn dist(num: u64, den: u64) -> f64 {
    num as f64 / den as f64
}

#[test]
fn map_accepts_bordered_grid() {
    let m = open_map(16);
    assert_eq!(m.width, 16);
    assert_eq!(m.height, 16);
    assert_eq!(m.cell(0, 5), 1);
    assert_eq!(m.cell(5, 5), 0);
    assert!(m.is_wall(15 * U + 3, 8 * U));
    assert!(!m.is_wall(8 * U, 8 * U));
}

#[test]
fn map_rejects_small_grid() {
    let rows = vec![vec![1u8, 1, 1], vec![1, 1, 1]];
    assert_eq!(GridMap::new(rows).err(), Some(MapError::Size));
    assert_eq!(GridMap::new(vec![vec![1u8, 1], vec![1, 1], vec![1, 1]]).err(), Some(MapError::Size));
}

#[test]
fn map_size_limits() {
    assert!(GridMap::new(bordered(1024)).is_ok());
    assert_eq!(GridMap::new(bordered(1025)).err(), Some(MapError::Size));
    let m = GridMap::new(bordered(1024)).unwrap();
    let p = Player::new(512 * U, 3 * U + 5, 0);
    let h = cast_ray(&m, &p, 0);
    assert_eq!((h.map_x, h.steps), (1023, 511));
    assert_eq!(dist(h.dist_num, h.dist_den), 511.0);
    let p = Player::new(512 * U, 3 * U + 5, 2700);
    let h = cast_ray(&m, &p, 0);
    assert_eq!((h.map_y, h.steps), (0, 3));
}

#[test]
fn map_rejects_ragged_grid() {
    let mut rows = bordered(5);
    rows[2].push(1);
    assert_eq!(GridMap::new(rows).err(), Some(MapError::NotRectangular));
}

#[test]
fn map_rejects_open_border() {
    let mut rows = bordered(5);
    rows[4][2] = 0;
    assert_eq!(GridMap::new(rows).err(), Some(MapError::OpenBorder));
    let mut rows = bordered(5);
    rows[2][0] = 0;
    assert_eq!(GridMap::new(rows).err(), Some(MapError::OpenBorder));
}

#[test]
fn sine_and_cosine_values() {
    assert_eq!(sin_of(0), 0);
    assert_eq!(sin_of(900), TRIG_ONE as i64);
    assert_eq!(sin_of(1800), 0);
    assert_eq!(sin_of(2700), -(TRIG_ONE as i64));
    assert_eq!(sin_of(300), 8192);
    assert_eq!(cos_of(0), TRIG_ONE as i64);
    assert_eq!(cos_of(1800), -(TRIG_ONE as i64));
    assert_eq!(cos_of(600), 8192);
    assert_eq!(sin_of(3600 + 300), 8192);
}

#[test]
fn turning_wraps_round() {
    assert_eq!(turn(3500, 200), 100);
    assert_eq!(turn(100, -200), 3500);
    assert_eq!(turn(0, -3600 * 5), 0);
    assert_eq!(turn(10, i64::MAX), (10 + i64::MAX as u64 % FULL_TURN) % FULL_TURN);
    assert_eq!(turn(10, i64::MIN), 10 + FULL_TURN - (1u64 << 63) % FULL_TURN);
}

#[test]
fn end_to_end_sixteen_grid() {
    let m = open_map(16);
    let p = Player::new(8 * U, 8 * U, 0);
    let h = cast_ray(&m, &p, 0);
    assert!((dist(h.dist_num, h.dist_den) - 7.0).abs() < 1e-9);
    assert_eq!((h.map_x, h.map_y), (15, 8));
    assert_eq!(h.cell, 1);
    assert!(!h.side_y);
    assert_eq!(h.steps, 7);
}

#[test]
fn wall_one_cell_away() {
    let mut rows = bordered(16);
    rows[8][9] = 2;
    let m = GridMap::new(rows).unwrap();
    for px in [8 * U, 8 * U + 1, 8 * U + U / 2, 9 * U - 1] {
        let p = Player::new(px, 8 * U + U / 2, 0);
        let h = cast_ray(&m, &p, 0);
        let d = dist(h.dist_num, h.dist_den);
        assert!(d > 0.0 && d <= 1.0, "distance {} from {}", d, px);
        assert_eq!((h.map_x, h.map_y, h.cell), (9, 8, 2));
    }
    let p = Player::new(8 * U + U / 2, 8 * U + U / 2, 0);
    let h = cast_ray(&m, &p, 0);
    assert!((dist(h.dist_num, h.dist_den) - 0.5).abs() < 1e-9);
}

#[test]
fn every_direction_reaches_a_wall() {
    let m = open_map(16);
    let (px, py) = (5 * U + 100, 9 * U + 700);
    for a in [0u64, 1, 300, 450, 899, 900, 1350, 1800, 2250, 2700, 3150, 3599] {
        let h = cast(&m, px, py, cos_of(a), sin_of(a));
        assert!(h.dist_den > 0);
        assert!(m.cell(h.map_x, h.map_y) != 0);
        let d = dist(h.dist_num, h.dist_den);
        assert!(d.is_finite() && d >= 0.0 && d < 23.0);
    }
}

#[test]
fn every_offset_gives_perpendicular_distance() {
    let m = open_map(16);
    let p = Player::new(5 * U + 100, 9 * U + 700, 450);
    for off in [-899i64, -450, -1, 0, 1, 300, 899] {
        let h = cast_ray(&m, &p, off);
        assert!(h.dist_den > 0);
        assert!(m.cell(h.map_x, h.map_y) != 0);
        let d = dist(h.dist_num, h.dist_den);
        assert!(d.is_finite() && d >= 0.0 && d < 16.0);
    }
}

#[test]
fn perpendicular_not_ray_length() {
    // From the middle of the one open cell of a 3 by 3 map, a ray 30 degrees off
    // the facing direction is about 0.578 cells long but half a cell away
    // perpendicular to the camera.
    let m = open_map(3);
    let p = Player::new(U + U / 2, U + U / 2, 0);
    let h = cast_ray(&m, &p, 300);
    assert_eq!(dist(h.dist_num, h.dist_den), 0.5);
    assert_eq!((h.map_x, h.map_y), (2, 1));
    let along = cast(&m, p.x, p.y, cos_of(300), sin_of(300));
    assert!((dist(along.dist_num, along.dist_den) - 0.578).abs() < 0.001);
    let h = cast_ray(&m, &p, -300);
    assert_eq!(dist(h.dist_num, h.dist_den), 0.5);
}

#[test]
fn offset_forms_agree() {
    let m = open_map(12);
    let (px, py) = (4 * U + 311, 6 * U + 77);
    for (rx, ry) in [(16384i64, 0i64), (-3000, 7000), (5000, -5000), (-16000, -200), (0, 9000), (123, 16384)] {
        let h = cast(&m, px, py, rx, ry);
        let closed: i64 = if h.side_y {
            if ry < 0 {
                py as i64 - (h.map_y as i64 + 1) * U as i64
            } else {
                h.map_y as i64 * U as i64 - py as i64
            }
        } else if rx < 0 {
            px as i64 - (h.map_x as i64 + 1) * U as i64
        } else {
            h.map_x as i64 * U as i64 - px as i64
        };
        assert_eq!(h.dist_num as i64, closed * TRIG_ONE as i64);
        let a = if h.side_y { ry.abs() } else { rx.abs() } as u64;
        assert_eq!(h.dist_den, a * U);
    }
}

#[test]
fn full_turn_restores_direction() {
    let mut p = Player::new(2 * U, 2 * U, 1234);
    p.rotate(3600);
    assert_eq!(p.direction, 1234);
    p.turn_right(3600);
    assert_eq!(p.direction, 1234);
    p.turn_left(3600);
    assert_eq!(p.direction, 1234);
    p.turn_left(300);
    assert_eq!(p.direction, 934);
    p.turn_right(3000);
    assert_eq!(p.direction, 334);
    p.rotate(-334);
    assert_eq!(p.direction, 0);
}

#[test]
fn forward_then_backward_restores_position() {
    let m = open_map(16);
    for dir in [0u64, 450, 900, 1337, 2000, 3100] {
        let mut p = Player::new(8 * U + 5, 7 * U + 900, dir);
        let start = (p.x, p.y);
        p.move_forward(700, &m);
        assert_ne!((p.x, p.y), start);
        p.move_backward(700, &m);
        assert_eq!((p.x, p.y), start);
    }
}

#[test]
fn forward_moves_along_heading() {
    let m = open_map(16);
    let mut p = Player::new(8 * U, 8 * U, 0);
    p.move_forward(512, &m);
    assert_eq!((p.x, p.y), (8 * U + 512, 8 * U));
    let mut p = Player::new(8 * U, 8 * U, 900);
    p.move_forward(512, &m);
    assert_eq!((p.x, p.y), (8 * U, 8 * U + 512));
    p.move_backward(1024, &m);
    assert_eq!((p.x, p.y), (8 * U, 8 * U - 512));
}

#[test]
fn huge_moves_are_blocked() {
    let m = open_map(8);
    for d in [i64::MAX, i64::MIN, 1 << 40] {
        let mut p = Player::new(4 * U, 4 * U, 450);
        p.move_forward(d, &m);
        assert_eq!((p.x, p.y), (4 * U, 4 * U));
        p.move_backward(d, &m);
        assert_eq!((p.x, p.y), (4 * U, 4 * U));
    }
    let mut p = Player::new(4 * U, 4 * U, 0);
    p.move_forward(2 * U as i64, &m);
    assert_eq!((p.x, p.y), (6 * U, 4 * U));
}

#[test]
fn diagonal_into_corner_slides() {
    let m = open_map(8);
    // Near the right wall, heading down-right: x is blocked, y slides.
    let mut p = Player::new(7 * U - 10, 4 * U, 450);
    p.move_forward(400, &m);
    assert_eq!(p.x, 7 * U - 10);
    assert!(p.y > 4 * U);
    // Near the bottom wall: y is blocked, x slides.
    let mut p = Player::new(4 * U, 7 * U - 10, 450);
    p.move_forward(400, &m);
    assert!(p.x > 4 * U);
    assert_eq!(p.y, 7 * U - 10);
    // Into the corner itself: neither axis moves.
    let mut p = Player::new(7 * U - 10, 7 * U - 10, 450);
    p.move_forward(400, &m);
    assert_eq!((p.x, p.y), (7 * U - 10, 7 * U - 10));
}

#[test]
fn new_player_defaults() {
    let mut p = Player::new(3, 4, 3700);
    assert_eq!((p.x, p.y, p.direction, p.fov), (3, 4, 100, DEFAULT_FOV));
    p.set_fov(60);
    assert_eq!(p.fov, 600);
}

#[test]
fn projection_heights() {
    assert_eq!(project(0, 1, 480), (0, 479));
    assert_eq!(project(1, 1, 480), (0, 479));
    assert_eq!(project(2, 1, 480), (120, 360));
    assert_eq!(project(7, 1, 480), (206, 274));
    assert_eq!(project(1, 2, 480), (0, 479));
}

#[test]
fn lines_one_per_column() {
    let m = open_map(16);
    let p = Player::new(8 * U, 8 * U, 0);
    let mut rc = RayCasting::new(m, p).unwrap();
    let segs = rc.lines(4, 480);
    assert_eq!(segs.len(), 4);
    for (i, s) in segs.iter().enumerate() {
        assert_eq!(s.column, i as u64);
        assert!(s.start <= s.end && s.end < 480);
        assert_eq!(s.color, if s.hit.side_y { SHADE_Y } else { SHADE_X });
    }
    let mid = &segs[2];
    assert_eq!(dist(mid.hit.dist_num, mid.hit.dist_den), 7.0);
    assert_eq!((mid.start, mid.end), (206, 274));
    // Perpendicular correction keeps a flat wall flat: the columns either side of
    // the middle see the right wall at the same perpendicular distance.
    let segs = rc.lines(640, 480);
    let right: Vec<_> = segs.iter().filter(|s| s.hit.map_x == 15).collect();
    assert!(right.len() > 100);
    for s in right {
        assert!((dist(s.hit.dist_num, s.hit.dist_den) - 7.0).abs() < 0.05);
    }
    assert!(rc.lines(0, 480).is_empty());
    let segs = rc.lines(65535, 65535);
    assert_eq!(segs.len(), 65535);
    assert!(segs.iter().all(|s| s.start <= s.end && s.end < 65535));
}

#[test]
fn raycasting_new_checks_player() {
    let m = open_map(6);
    assert!(RayCasting::new(open_map(6), Player::new(0, 2 * U, 0)).is_none());
    assert!(RayCasting::new(m, Player::new(2 * U, 2 * U, 0)).is_some());
}

#[test]
fn transform_cam_moves_then_turns() {
    let m = open_map(16);
    let mut rc = RayCasting::new(m, Player::new(8 * U, 8 * U, 0)).unwrap();
    rc.transform_cam(256, 900);
    assert_eq!((rc.player.x, rc.player.y, rc.player.direction), (8 * U + 256, 8 * U, 900));
    rc.transform_cam(256, 0);
    assert_eq!((rc.player.x, rc.player.y, rc.player.direction), (8 * U + 256, 8 * U + 256, 900));
    rc.transform_cam(0, -1800);
    assert_eq!(rc.player.direction, 2700);
}

#[test]
fn framebuffer_points() {
    let mut fb = Framebuffer::new(4, 3);
    fb.point(1, 2, 7);
    fb.point(4, 0, 9);
    fb.point(0, 3, 9);
    assert_eq!(fb.buffer[2 * 4 + 1], 7);
    assert_eq!(fb.buffer.iter().filter(|&&c| c != 0).count(), 1);
    fb.fill_rect(2, 1, 5, 5, 3);
    assert_eq!(fb.buffer, vec![0, 0, 0, 0, 0, 0, 3, 3, 0, 7, 3, 3]);
}

#[test]
fn digit_one_glyph() {
    let mut fb = Framebuffer::new(8, 7);
    draw_digit(&mut fb, 1, 1, 1, 5);
    let rows = [0b00100, 0b01100, 0b00100, 0b00100, 0b01110];
    for y in 0..7 {
        for x in 0..8 {
            let lit = (1..6).contains(&x) && (1..6).contains(&y) && rows[y - 1] & (1 << (4 - (x - 1))) != 0;
            assert_eq!(fb.buffer[y * 8 + x] == 5, lit, "pixel {},{}", x, y);
        }
    }
    let before = fb.buffer.clone();
    draw_digit(&mut fb, 0, 0, 13, 9);
    assert_eq!(fb.buffer, before);
}

#[test]
fn text_skips_unknown_characters() {
    let mut a = Framebuffer::new(40, 6);
    draw_text(&mut a, 0, 0, "6FPS", 1);
    let mut b = Framebuffer::new(40, 6);
    draw_text(&mut b, 0, 0, "6 F?P-S", 1);
    assert_eq!(a.buffer, b.buffer);
    let mut c = Framebuffer::new(40, 6);
    draw_digit(&mut c, 0, 0, 6, 1);
    draw_digit(&mut c, 6, 0, 10, 1);
    draw_digit(&mut c, 12, 0, 11, 1);
    draw_digit(&mut c, 18, 0, 12, 1);
    assert_eq!(a.buffer, c.buffer);
    assert!(a.buffer.iter().any(|&p| p == 1));
}

#[test]
fn overhead_map_tiles() {
    let m = open_map(4);
    let mut fb = Framebuffer::new(10, 9);
    draw_2d_map(&m, &mut fb);
    // Tiles are 2 by 2; the last 2 columns and the last row are untouched.
    assert_eq!(fb.buffer[0], COLOR_WALL);
    assert_eq!(fb.buffer[2 * 10 + 2], COLOR_FLOOR);
    assert_eq!(fb.buffer[3 * 10 + 5], COLOR_FLOOR);
    assert_eq!(fb.buffer[7 * 10 + 7], COLOR_WALL);
    assert_eq!(fb.buffer[9], 0);
    assert_eq!(fb.buffer[8 * 10], 0);
    let mut fb = Framebuffer::new(4, 4);
    fb.buffer[0] = 42;
    draw_2d_map(&open_map(5), &mut fb);
    assert_eq!(fb.buffer[0], 42);
}

#[test]
fn scene_columns_show_wall_spans() {
    let m = open_map(16);
    let p = Player::new(8 * U, 8 * U, 0);
    let mut fb = Framebuffer::new(4, 480);
    render_scene(&m, &p, &mut fb);
    let col2: Vec<u32> = (0..480).map(|y| fb.buffer[y * 4 + 2]).collect();
    assert!(col2[..206].iter().all(|&c| c == 0));
    assert!(col2[206..=274].iter().all(|&c| c == SHADE_X));
    assert!(col2[275..].iter().all(|&c| c == 0));
}

#[test]
fn minimap_marks_player() {
    let m = open_map(5);
    let p = Player::new(2 * U + U / 2, 3 * U, 0);
    let mut fb = Framebuffer::new(40, 40);
    draw_minimap(&m, &p, &mut fb);
    let (sx, sy) = (40 - 20 - 10, 40 - 20 - 10);
    assert_eq!(fb.buffer[sy * 40 + sx], 0xFFFFFF);
    assert_eq!(fb.buffer[(sy + 4) * 40 + sx + 4], 0x000000);
    assert_eq!(fb.buffer[(sy + 12) * 40 + sx + 10], MINIMAP_PLAYER);
    assert_eq!(fb.buffer[(sy + 15) * 40 + sx + 13], MINIMAP_PLAYER);
    assert_eq!(fb.buffer[(sy + 12) * 40 + sx + 9], 0x000000);
    assert_eq!(fb.buffer[0], 0);
}

#[test]
fn joined_text_draws_as_its_parts() {
    let mut a = Framebuffer::new(60, 8);
    draw_text(&mut a, 2, 1, "12x9FPS", 4);
    let mut b = Framebuffer::new(60, 8);
    draw_text(&mut b, 2, 1, "12x", 4);
    draw_text(&mut b, 2 + 6 * 2, 1, "9FPS", 4);
    assert_eq!(a.buffer, b.buffer);
}
