use vstd::prelude::*;
use crate::angle::{cos_of, cosine, sin_of, sine, turn, turned, FULL_TURN, HALF_TURN, TRIG_ONE};
use crate::grid::{GridMap, UNITS_PER_CELL};

verus! {

/// Field of view a new player starts with: a quarter turn.
pub const DEFAULT_FOV: u64 = 900;

/// Whether the world point `(x, y)`, in sub-units, lies in an empty cell of the map.
pub open spec fn free(m: GridMap, x: int, y: int) -> bool {
    &&& x >= 0 && y >= 0
    &&& m.in_grid(x / UNITS_PER_CELL as int, y / UNITS_PER_CELL as int)
    &&& !m.wall(x / UNITS_PER_CELL as int, y / UNITS_PER_CELL as int)
}

/// `c * d / TRIG_ONE`, rounded toward zero.
pub open spec fn scaled(c: int, d: int) -> int {
    let mag = (if c < 0 { -c } else { c }) * (if d < 0 { -d } else { d }) / TRIG_ONE as int;
    if (c < 0) != (d < 0) {
        -mag
    } else {
        mag
    }
}

/// The displacement, in sub-units, of a move by `d` toward `heading`.
pub open spec fn step_x(heading: int, d: int) -> int {
    scaled(cosine(heading), d)
}

pub open spec fn step_y(heading: int, d: int) -> int {
    scaled(sine(heading), d)
}

/// Where a move by `(dx, dy)` from `(x, y)` ends: the x part is taken if it lands in
/// an empty cell, then the y part from the new x, each axis on its own.
pub open spec fn moved(m: GridMap, x: int, y: int, dx: int, dy: int) -> (int, int) {
    let nx = if free(m, x + dx, y) {
        x + dx
    } else {
        x
    };
    let ny = if free(m, nx, y + dy) {
        y + dy
    } else {
        y
    };
    (nx, ny)
}

/// The camera: its position in sub-units, the angle it faces and its field of view,
/// both in tenths of a degree.
#[derive(Debug, Clone, Copy, PartialEq, Eq, Structural)]
pub struct Player {
    pub x: u64,
    pub y: u64,
    pub direction: u64,
    pub fov: u64,
}

impl Player {
    pub open spec fn wf(&self) -> bool {
        self.direction < FULL_TURN && 0 < self.fov < HALF_TURN
    }

    /// The player stands in an empty cell of `m`.
    pub open spec fn stands_in(&self, m: GridMap) -> bool {
        self.wf() && free(m, self.x as int, self.y as int)
    }

    /// A player at `(x, y)` facing `direction`, with the default field of view.
    pub fn new(x: u64, y: u64, direction: u64) -> (p: Player)
        ensures
            p.x == x && p.y == y,
            p.direction == direction as int % FULL_TURN as int,
            p.fov == DEFAULT_FOV,
            p.wf(),
    {
        Player { x, y, direction: direction % FULL_TURN, fov: DEFAULT_FOV }
    }

    /// Moves by `distance` sub-units along the facing direction (backward when
    /// negative), taking each axis of the move only where it lands in an empty cell.
    pub fn move_forward(&mut self, distance: i64, map: &GridMap)
        requires
            map.wf(),
            old(self).stands_in(*map),
        ensures
            final(self).stands_in(*map),
            final(self).direction == old(self).direction,
            final(self).fov == old(self).fov,
            (final(self).x as int, final(self).y as int) == moved(
                *map,
                old(self).x as int,
                old(self).y as int,
                step_x(old(self).direction as int, distance as int),
                step_y(old(self).direction as int, distance as int),
            ),
    {
        let dx = scale(cos_of(self.direction), distance);
        let dy = scale(sin_of(self.direction), distance);
        self.move_by(dx, dy, map);
    }

    /// Moves by `(dx, dy)` sub-units, each axis only where it lands in an empty cell.
    fn move_by(&mut self, dx: i128, dy: i128, map: &GridMap)
        requires
            map.wf(),
            old(self).stands_in(*map),
            -0x8000_0000_0000_0000 <= dx <= 0x8000_0000_0000_0000,
            -0x8000_0000_0000_0000 <= dy <= 0x8000_0000_0000_0000,
        ensures
            final(self).stands_in(*map),
            final(self).direction == old(self).direction,
            final(self).fov == old(self).fov,
            (final(self).x as int, final(self).y as int) == moved(
                *map,
                old(self).x as int,
                old(self).y as int,
                dx as int,
                dy as int,
            ),
    {
        assert(self.x < 1024 * 1024 && self.y < 1024 * 1024);
        let cx = self.x as i128 + dx;
        if free_at(map, cx, self.y as i128) {
            assert(cx < 1024 * 1024);
            self.x = cx as u64;
        }
        let cy = self.y as i128 + dy;
        if free_at(map, self.x as i128, cy) {
            assert(cy < 1024 * 1024);
            self.y = cy as u64;
        }
    }

    /// Moves by `distance` sub-units against the facing direction: a forward move by
    /// `-distance`.
    pub fn move_backward(&mut self, distance: i64, map: &GridMap)
        requires
            map.wf(),
            old(self).stands_in(*map),
        ensures
            final(self).stands_in(*map),
            final(self).direction == old(self).direction,
            final(self).fov == old(self).fov,
            (final(self).x as int, final(self).y as int) == moved(
                *map,
                old(self).x as int,
                old(self).y as int,
                step_x(old(self).direction as int, -distance),
                step_y(old(self).direction as int, -distance),
            ),
    {
        let dx = scale(cos_of(self.direction), distance);
        let dy = scale(sin_of(self.direction), distance);
        proof {
            lemma_backward_is_reverse(self.direction as int, distance as int);
        }
        self.move_by(-dx, -dy, map);
    }

    /// Turns counter-clockwise on screen: the facing angle decreases by `angle`.
    pub fn turn_left(&mut self, angle: i64)
        requires
            old(self).wf(),
            angle > i64::MIN,
        ensures
            *final(self) == (Player {
                direction: turned(old(self).direction as int, -angle) as u64,
                ..*old(self)
            }),
            final(self).wf(),
    {
        self.direction = turn(self.direction, -angle);
    }

    /// Turns clockwise on screen: the facing angle increases by `angle`.
    pub fn turn_right(&mut self, angle: i64)
        requires
            old(self).wf(),
        ensures
            *final(self) == (Player {
                direction: turned(old(self).direction as int, angle as int) as u64,
                ..*old(self)
            }),
            final(self).wf(),
    {
        self.direction = turn(self.direction, angle);
    }

    /// Turns by a signed `angle`: positive to the right, negative to the left.
    pub fn rotate(&mut self, angle: i64)
        requires
            old(self).wf(),
        ensures
            *final(self) == (Player {
                direction: turned(old(self).direction as int, angle as int) as u64,
                ..*old(self)
            }),
            final(self).wf(),
    {
        self.direction = turn(self.direction, angle);
    }

    /// Sets the field of view, given in whole degrees.
    pub fn set_fov(&mut self, degrees: u64)
        requires
            0 < degrees < 180,
        ensures
            *final(self) == (Player { fov: (degrees * 10) as u64, ..*old(self) }),
    {
        self.fov = degrees * 10;
    }
}

/// `c * d / TRIG_ONE`, rounded toward zero, for a sine or cosine `c`.
fn scale(c: i64, d: i64) -> (r: i128)
    requires
        -TRIG_ONE <= c <= TRIG_ONE,
    ensures
        r == scaled(c as int, d as int),
        -0x8000_0000_0000_0000 <= r <= 0x8000_0000_0000_0000,
{
    let ca: u128 = if c < 0 { (-(c as i128)) as u128 } else { c as u128 };
    let da: u128 = if d < 0 { (-(d as i128)) as u128 } else { d as u128 };
    assert(ca * da <= TRIG_ONE * da) by (nonlinear_arith)
        requires
            ca <= TRIG_ONE,
    ;
    assert(da <= 0x8000_0000_0000_0000);
    assert(TRIG_ONE * da <= TRIG_ONE * 0x8000_0000_0000_0000) by (nonlinear_arith)
        requires
            da <= 0x8000_0000_0000_0000,
    ;
    let mag = ca * da / (TRIG_ONE as u128);
    proof {
        vstd::arithmetic::div_mod::lemma_div_is_ordered((ca * da) as int, TRIG_ONE * da, TRIG_ONE as int);
        vstd::arithmetic::div_mod::lemma_div_multiples_vanish(da as int, TRIG_ONE as int);
    }
    if (c < 0) != (d < 0) {
        -(mag as i128)
    } else {
        mag as i128
    }
}

/// Whether the world point `(x, y)` lies in an empty cell; points off the grid do not.
fn free_at(map: &GridMap, x: i128, y: i128) -> (r: bool)
    requires
        map.wf(),
    ensures
        r == free(*map, x as int, y as int),
{
    if x < 0 || y < 0 {
        return false;
    }
    let cx = (x as u128) / (UNITS_PER_CELL as u128);
    let cy = (y as u128) / (UNITS_PER_CELL as u128);
    if cx >= map.width as u128 || cy >= map.height as u128 {
        return false;
    }
    proof {
        vstd::arithmetic::div_mod::lemma_fundamental_div_mod(x as int, 1024);
        vstd::arithmetic::div_mod::lemma_mod_bound(x as int, 1024);
        vstd::arithmetic::div_mod::lemma_fundamental_div_mod(y as int, 1024);
        vstd::arithmetic::div_mod::lemma_mod_bound(y as int, 1024);
    }
    assert(x < 1024 * 1024 && y < 1024 * 1024);
    !map.is_wall(x as u64, y as u64)
}

/// A full turn brings any heading, and so the direction it faces, back to itself.
pub proof fn lemma_full_turn_restores(heading: int)
    requires
        0 <= heading < FULL_TURN,
    ensures
        turned(heading, FULL_TURN as int) == heading,
        cosine(turned(heading, FULL_TURN as int)) == cosine(heading),
        sine(turned(heading, FULL_TURN as int)) == sine(heading),
{
    vstd::arithmetic::div_mod::lemma_mod_add_multiples_vanish(heading, FULL_TURN as int);
    vstd::arithmetic::div_mod::lemma_small_mod(heading as nat, FULL_TURN as nat);
}

/// Turning by any angle and then back by the same angle restores the heading.
pub proof fn lemma_turn_back_restores(heading: int, angle: int)
    requires
        0 <= heading < FULL_TURN,
    ensures
        turned(turned(heading, angle), -angle) == heading,
{
    let f = FULL_TURN as int;
    vstd::arithmetic::div_mod::lemma_add_mod_noop(heading + angle, -angle, f);
    vstd::arithmetic::div_mod::lemma_mod_twice(heading + angle, f);
    vstd::arithmetic::div_mod::lemma_add_mod_noop((heading + angle) % f, -angle, f);
    vstd::arithmetic::div_mod::lemma_small_mod(heading as nat, f as nat);
}

/// A move backward by `d` is the exact reverse of a move forward by `d`.
pub proof fn lemma_backward_is_reverse(heading: int, d: int)
    ensures
        step_x(heading, -d) == -step_x(heading, d),
        step_y(heading, -d) == -step_y(heading, d),
{
    lemma_scaled_odd(cosine(heading), d);
    lemma_scaled_odd(sine(heading), d);
}

proof fn lemma_scaled_odd(c: int, d: int)
    ensures
        scaled(c, -d) == -scaled(c, d),
{
    let ca = if c < 0 { -c } else { c };
    let da = if d < 0 { -d } else { d };
    let nda = if -d < 0 { d } else { -d };
    assert(nda == da);
    let mag = ca * da / TRIG_ONE as int;
    assert(mag >= 0) by (nonlinear_arith)
        requires
            ca >= 0,
            da >= 0,
            mag == ca * da / 16384,
    ;
    if d == 0 {
        assert(ca * da == 0) by (nonlinear_arith)
            requires
                da == 0,
        ;
    }
}

/// Moving forward by `d` and then backward by `d` returns to the start when no
/// wall blocks either axis of either move.
pub proof fn lemma_forward_then_backward(m: GridMap, x: int, y: int, heading: int, d: int)
    requires
        free(m, x, y),
        free(m, x + step_x(heading, d), y),
        free(m, x + step_x(heading, d), y + step_y(heading, d)),
        free(m, x, y + step_y(heading, d)),
    ensures
        ({
            let p = moved(m, x, y, step_x(heading, d), step_y(heading, d));
            moved(m, p.0, p.1, step_x(heading, -d), step_y(heading, -d))
        }) == (x, y),
{
    lemma_backward_is_reverse(heading, d);
}

/// Collisions are resolved per axis: a blocked x part is dropped while the y part is
/// still taken when open, and a blocked y part is dropped while an open x part is kept.
pub proof fn lemma_slides_along_walls(m: GridMap, x: int, y: int, dx: int, dy: int)
    ensures
        !free(m, x + dx, y) && free(m, x, y + dy) ==> moved(m, x, y, dx, dy) == (x, y + dy),
        !free(m, x + dx, y) && !free(m, x, y + dy) ==> moved(m, x, y, dx, dy) == (x, y),
        free(m, x + dx, y) && !free(m, x + dx, y + dy) ==> moved(m, x, y, dx, dy) == (x + dx, y),
        free(m, x + dx, y) && free(m, x + dx, y + dy) ==> moved(m, x, y, dx, dy) == (x + dx, y + dy),
{
}

} // verus!
