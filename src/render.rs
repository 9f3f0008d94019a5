use vstd::prelude::*;
use crate::angle::{cos_of, cosine, lemma_unit_direction, sin_of, sine, turn, turned, FULL_TURN, QUARTER_TURN, TRIG_ONE};
use crate::dda::{accumulated_offset, cast, crossing_component, trace, wall_reached, RayHit};
use crate::grid::{GridMap, UNITS_PER_CELL};
use crate::player::{moved, step_x, step_y, Player};

verus! {

/// Largest screen width or height, in pixels.
pub const MAX_SCREEN: u64 = 65535;

/// Shade of a wall entered across a horizontal grid line.
pub const SHADE_Y: u32 = 0xCCCCCC;

/// Shade of a wall entered across a vertical grid line.
pub const SHADE_X: u32 = 0xAAAAAA;

/// The angle, relative to the facing direction, of the ray through screen column
/// `c` of `w`: `fov * (2c - w) / 2w`, rounded toward zero.
pub open spec fn column_offset(fov: int, w: int, c: int) -> int {
    if 2 * c >= w {
        fov * (2 * c - w) / (2 * w)
    } else {
        -(fov * (w - 2 * c) / (2 * w))
    }
}

/// How tall a wall at distance `num / den` cells stands on a screen `vh` pixels high:
/// `vh / distance`, capped at `vh`.
pub open spec fn wall_height(vh: int, num: int, den: int) -> int {
    if num == 0 || vh * den / num > vh {
        vh
    } else {
        vh * den / num
    }
}

/// First row of a wall of height `wh` centred on a screen `vh` pixels high.
pub open spec fn seg_start(vh: int, wh: int) -> int {
    if vh / 2 >= wh / 2 {
        vh / 2 - wh / 2
    } else {
        0
    }
}

/// Last row of a wall of height `wh` centred on a screen `vh` pixels high.
pub open spec fn seg_end(vh: int, wh: int) -> int {
    if vh / 2 + wh / 2 > vh - 1 {
        vh - 1
    } else {
        vh / 2 + wh / 2
    }
}

pub open spec fn shade(side_y: bool) -> u32 {
    if side_y {
        SHADE_Y
    } else {
        SHADE_X
    }
}

/// The vertical span of one screen column that shows a wall.
#[derive(Debug, Clone, Copy, PartialEq, Eq, Structural)]
pub struct ScreenSegment {
    pub column: u64,
    /// First row of the wall, inclusive.
    pub start: u64,
    /// Last row of the wall, inclusive.
    pub end: u64,
    /// The wall the column's ray met, at its perpendicular distance.
    pub hit: RayHit,
    pub color: u32,
}

/// `h` is the hit of the ray from player `p` at `offset` from its facing direction,
/// with the perpendicular distance: the distance along the ray times the cosine of
/// `offset`, so that a flat wall facing the camera is at one distance across the
/// screen.
pub open spec fn perp_hit_of(m: GridMap, p: Player, offset: int, h: RayHit) -> bool {
    let a = turned(p.direction as int, offset);
    let (rx, ry) = (cosine(a), sine(a));
    let st = trace(p.x as int, p.y as int, rx, ry, h.steps as nat);
    let k = cosine(turned(0, offset));
    &&& wall_reached(m, p.x as int, p.y as int, rx, ry, h)
    &&& h.dist_num == accumulated_offset(st) * TRIG_ONE * k
    &&& h.dist_den == crossing_component(rx, ry, h.side_y) * UNITS_PER_CELL * TRIG_ONE
    &&& h.dist_den > 0
}

/// Casts one ray from the player, at `angle_offset` (less than a quarter turn either
/// way) from the facing direction, and returns the first wall it meets with its
/// distance perpendicular to the camera.
pub fn cast_ray(map: &GridMap, player: &Player, angle_offset: i64) -> (h: RayHit)
    requires
        map.wf(),
        player.stands_in(*map),
        -(QUARTER_TURN as int) < angle_offset < QUARTER_TURN,
    ensures
        perp_hit_of(*map, *player, angle_offset as int, h),
        h.steps <= map.width + map.height,
        h.dist_num <= 2 * 1024 * 1024 * TRIG_ONE * TRIG_ONE,
        h.dist_den <= TRIG_ONE * UNITS_PER_CELL * TRIG_ONE,
{
    let a = turn(player.direction, angle_offset);
    proof {
        lemma_unit_direction(a as int);
    }
    let along = cast(map, player.x, player.y, cos_of(a), sin_of(a));
    let k = cos_of(turn(0, angle_offset));
    proof {
        lemma_cosine_of_offset(angle_offset as int);
    }
    assert(along.dist_num * (k as u64) <= 2 * 1024 * 1024 * 16384 * 16384) by (nonlinear_arith)
        requires
            along.dist_num <= 2 * 1024 * 1024 * 16384,
            0 < k <= 16384,
    ;
    RayHit { dist_num: along.dist_num * (k as u64), dist_den: along.dist_den * TRIG_ONE, ..along }
}

/// Where a wall seen at distance `num / den` cells stands on a screen `vh` pixels
/// high: its first and last rows.
pub fn project(num: u64, den: u64, vh: u64) -> (r: (u64, u64))
    requires
        1 <= vh <= MAX_SCREEN,
        den <= 1099511627776,
    ensures
        r.0 == seg_start(vh as int, wall_height(vh as int, num as int, den as int)),
        r.1 == seg_end(vh as int, wall_height(vh as int, num as int, den as int)),
        r.0 <= r.1 < vh,
{
    assert(vh * den <= 65535 * 1099511627776) by (nonlinear_arith)
        requires
            vh <= 65535,
            den <= 1099511627776,
    ;
    let wh = if num == 0 || vh * den / num > vh {
        vh
    } else {
        vh * den / num
    };
    let start = vh / 2 - wh / 2;
    let end = if vh / 2 + wh / 2 > vh - 1 {
        vh - 1
    } else {
        vh / 2 + wh / 2
    };
    (start, end)
}

/// The segment that screen column `c` of a `w` by `vh` screen shows, for a player
/// in a map: the wall its ray meets, at its perpendicular distance.
pub open spec fn column_shows(m: GridMap, p: Player, w: int, vh: int, c: int, s: ScreenSegment) -> bool {
    &&& s.column == c
    &&& perp_hit_of(m, p, column_offset(p.fov as int, w, c), s.hit)
    &&& s.start == seg_start(vh, wall_height(vh, s.hit.dist_num as int, s.hit.dist_den as int))
    &&& s.end == seg_end(vh, wall_height(vh, s.hit.dist_num as int, s.hit.dist_den as int))
    &&& s.color == shade(s.hit.side_y)
    &&& s.start <= s.end < vh
}

/// The segment that screen column `c` of a `w` by `h` screen shows.
pub fn column_segment(map: &GridMap, player: &Player, w: u64, h: u64, c: u64) -> (s: ScreenSegment)
    requires
        map.wf(),
        player.stands_in(*map),
        w <= MAX_SCREEN,
        1 <= h <= MAX_SCREEN,
        c < w,
    ensures
        column_shows(*map, *player, w as int, h as int, c as int, s),
{
    let fov = player.fov;
    assert(fov * (2 * c - w) <= 1800 * 131072 && fov * (w - 2 * c) <= 1800 * 131072) by (nonlinear_arith)
        requires
            fov < 1800,
            c < w <= 65535,
    ;
    let o: i64 = if 2 * c >= w {
        (fov * (2 * c - w) / (2 * w)) as i64
    } else {
        -((fov * (w - 2 * c) / (2 * w)) as i64)
    };
    proof {
        lemma_offset_within_half_fov(fov as int, w as int, c as int);
    }
    let hit = cast_ray(map, player, o);
    let (start, end) = project(hit.dist_num, hit.dist_den, h);
    let color = if hit.side_y { SHADE_Y } else { SHADE_X };
    ScreenSegment { column: c, start, end, hit, color }
}

/// A map with a camera in it: the state a frame is rendered from.
pub struct RayCasting {
    pub world: GridMap,
    pub player: Player,
}

impl RayCasting {
    pub open spec fn wf(&self) -> bool {
        self.world.wf() && self.player.stands_in(self.world)
    }

    /// The segment that screen column `c` of a `w` by `vh` screen shows.
    pub open spec fn column_shows(&self, w: int, vh: int, c: int, s: ScreenSegment) -> bool {
        column_shows(self.world, self.player, w, vh, c, s)
    }

    /// A camera state, when the player stands in an empty cell of the map.
    pub fn new(world: GridMap, player: Player) -> (r: Option<RayCasting>)
        requires
            world.wf(),
        ensures
            r is Some <==> player.stands_in(world),
            r matches Some(rc) ==> rc.world == world && rc.player == player && rc.wf(),
    {
        if player.direction >= FULL_TURN || player.fov == 0 || player.fov >= 1800 {
            return None;
        }
        if player.x / UNITS_PER_CELL >= world.width as u64 || player.y / UNITS_PER_CELL >= world.height as u64 {
            return None;
        }
        if world.is_wall(player.x, player.y) {
            return None;
        }
        Some(RayCasting { world, player })
    }

    /// One wall segment per screen column of a `w` by `h` screen, left to right, with
    /// distances measured perpendicular to the camera so that walls do not bulge.
    pub fn lines(&mut self, w: u64, h: u64) -> (r: Vec<ScreenSegment>)
        requires
            old(self).wf(),
            w <= MAX_SCREEN,
            1 <= h <= MAX_SCREEN,
        ensures
            *final(self) == *old(self),
            r@.len() == w,
            forall|c: int| 0 <= c < w ==> final(self).column_shows(w as int, h as int, c, #[trigger] r@[c]),
    {
        let mut lines: Vec<ScreenSegment> = Vec::new();
        let mut c: u64 = 0;
        while c < w
            invariant
                self.wf(),
                *self == *old(self),
                w <= MAX_SCREEN,
                1 <= h <= MAX_SCREEN,
                c <= w,
                lines@.len() == c,
                forall|j: int| 0 <= j < c ==> self.column_shows(w as int, h as int, j, #[trigger] lines@[j]),
            decreases w - c,
        {
            let seg = column_segment(&self.world, &self.player, w, h, c);
            lines.push(seg);
            c = c + 1;
        }
        lines
    }

    /// Moves the camera by `move_factor` sub-units along its facing direction, then
    /// turns it by `rotation_factor`; a zero factor leaves that part alone.
    pub fn transform_cam(&mut self, move_factor: i64, rotation_factor: i64)
        requires
            old(self).wf(),
        ensures
            final(self).wf(),
            final(self).world == old(self).world,
            final(self).player.fov == old(self).player.fov,
            final(self).player.direction == turned(old(self).player.direction as int, rotation_factor as int),
            (final(self).player.x as int, final(self).player.y as int) == moved(
                old(self).world,
                old(self).player.x as int,
                old(self).player.y as int,
                step_x(old(self).player.direction as int, move_factor as int),
                step_y(old(self).player.direction as int, move_factor as int),
            ),
    {
        if move_factor != 0 {
            self.player.move_forward(move_factor, &self.world);
        } else {
            proof {
                crate::player::lemma_backward_is_reverse(self.player.direction as int, 0);
            }
        }
        if rotation_factor != 0 {
            self.player.rotate(rotation_factor);
        } else {
            proof {
                vstd::arithmetic::div_mod::lemma_small_mod(self.player.direction as nat, FULL_TURN as nat);
            }
        }
    }
}

proof fn lemma_share_of_fov(fov: int, w: int, a: int)
    requires
        0 < fov,
        1 <= w,
        0 <= a <= w,
    ensures
        0 <= fov * a / (2 * w) <= fov / 2,
{
    assert(0 <= fov * a <= fov * w) by (nonlinear_arith)
        requires
            0 < fov,
            0 <= a <= w,
    ;
    vstd::arithmetic::div_mod::lemma_div_is_ordered(fov * a, fov * w, 2 * w);
    vstd::arithmetic::div_mod::lemma_div_is_ordered(0, fov * a, 2 * w);
    assert(fov * w == w * fov) by (nonlinear_arith);
    vstd::arithmetic::div_mod::lemma_div_denominator(fov * w, w, 2);
    vstd::arithmetic::div_mod::lemma_div_multiples_vanish(fov, w);
    assert(2 * w == w * 2);
}

proof fn lemma_offset_within_half_fov(fov: int, w: int, c: int)
    requires
        0 < fov < 1800,
        1 <= w,
        0 <= c < w,
    ensures
        -(QUARTER_TURN as int) < column_offset(fov, w, c) < QUARTER_TURN,
        -(fov / 2) <= column_offset(fov, w, c) <= fov / 2,
{
    if 2 * c >= w {
        lemma_share_of_fov(fov, w, 2 * c - w);
    } else {
        lemma_share_of_fov(fov, w, w - 2 * c);
    }
}

/// The correction factor for a ray at offset `o` from the facing direction is positive.
proof fn lemma_cosine_of_offset(o: int)
    requires
        -(QUARTER_TURN as int) < o < QUARTER_TURN,
    ensures
        0 < cosine(turned(0, o)) <= TRIG_ONE,
{
    let f = FULL_TURN as int;
    vstd::arithmetic::div_mod::lemma_add_mod_noop(o, QUARTER_TURN as int, f);
    vstd::arithmetic::div_mod::lemma_small_mod(QUARTER_TURN as nat, f as nat);
    vstd::arithmetic::div_mod::lemma_small_mod((o + QUARTER_TURN) as nat, f as nat);
    assert(turned(0, o) == o % f);
    assert((o % f + QUARTER_TURN) % f == o + QUARTER_TURN);
    crate::angle::lemma_half_sine_bounds(o + QUARTER_TURN);
}

} // verus!
