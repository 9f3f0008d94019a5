use vstd::prelude::*;
use crate::angle::TRIG_ONE;
use crate::grid::{GridMap, UNITS_PER_CELL};

verus! {

/// Where a grid traversal stands: the current cell, the distance still to go
/// (in sub-units, along each axis) to the next vertical and horizontal grid
/// line, and whether the last step crossed a horizontal grid line.
pub struct DdaState {
    pub mx: int,
    pub my: int,
    pub nx: int,
    pub ny: int,
    pub side_y: bool,
}

pub open spec fn abs(v: int) -> int {
    if v < 0 {
        -v
    } else {
        v
    }
}

pub open spec fn step_of(r: int) -> int {
    if r < 0 {
        -1
    } else {
        1
    }
}

/// Sub-units from a coordinate to the grid line bounding cell `m` on the side the
/// ray leaves it by.
pub open spec fn gap_to_exit(p: int, r: int, m: int) -> int {
    if r < 0 {
        p - m * UNITS_PER_CELL
    } else {
        (m + 1) * UNITS_PER_CELL - p
    }
}

/// Sub-units from a coordinate to the grid line by which the ray entered cell `m`:
/// the closed form of the perpendicular distance once that line is the last crossed.
pub open spec fn gap_to_entry(p: int, r: int, m: int) -> int {
    if r < 0 {
        p - (m + 1) * UNITS_PER_CELL
    } else {
        m * UNITS_PER_CELL - p
    }
}

pub open spec fn start(px: int, py: int, rx: int, ry: int) -> DdaState {
    let mx = px / UNITS_PER_CELL as int;
    let my = py / UNITS_PER_CELL as int;
    DdaState { mx, my, nx: gap_to_exit(px, rx, mx), ny: gap_to_exit(py, ry, my), side_y: false }
}

/// The ray meets the next vertical grid line strictly before the next horizontal one
/// (`nx / |rx| < ny / |ry|`, a zero component never reaching its lines).
pub open spec fn crosses_x_first(st: DdaState, rx: int, ry: int) -> bool {
    abs(rx) != 0 && (abs(ry) == 0 || st.nx * abs(ry) < st.ny * abs(rx))
}

/// One step of the traversal, into the neighbouring cell the ray reaches first.
pub open spec fn advance(st: DdaState, rx: int, ry: int) -> DdaState {
    if crosses_x_first(st, rx, ry) {
        DdaState { mx: st.mx + step_of(rx), nx: st.nx + UNITS_PER_CELL, side_y: false, ..st }
    } else {
        DdaState { my: st.my + step_of(ry), ny: st.ny + UNITS_PER_CELL, side_y: true, ..st }
    }
}

/// The traversal of the ray from `(px, py)` along `(rx, ry)` after `k` steps.
pub open spec fn trace(px: int, py: int, rx: int, ry: int, k: nat) -> DdaState
    decreases k,
{
    if k == 0 {
        start(px, py, rx, ry)
    } else {
        advance(trace(px, py, rx, ry, (k - 1) as nat), rx, ry)
    }
}

/// The accumulated-distance form of the perpendicular offset: the distance to the
/// next line on the last crossed axis less one cell.
pub open spec fn accumulated_offset(st: DdaState) -> int {
    if st.side_y {
        st.ny - UNITS_PER_CELL
    } else {
        st.nx - UNITS_PER_CELL
    }
}

/// The closed form of the perpendicular offset, from the cell index and step sign.
pub open spec fn closed_offset(st: DdaState, px: int, py: int, rx: int, ry: int) -> int {
    if st.side_y {
        gap_to_entry(py, ry, st.my)
    } else {
        gap_to_entry(px, rx, st.mx)
    }
}

pub open spec fn open_cell(m: GridMap, st: DdaState) -> bool {
    m.in_grid(st.mx, st.my) && !m.wall(st.mx, st.my)
}

/// Each step keeps the distances to the next grid lines equal to their closed forms.
pub proof fn lemma_gaps_closed_form(px: int, py: int, rx: int, ry: int, k: nat)
    requires
        px >= 0,
        py >= 0,
    ensures
        trace(px, py, rx, ry, k).nx == gap_to_exit(px, rx, trace(px, py, rx, ry, k).mx),
        trace(px, py, rx, ry, k).ny == gap_to_exit(py, ry, trace(px, py, rx, ry, k).my),
    decreases k,
{
    if k > 0 {
        lemma_gaps_closed_form(px, py, rx, ry, (k - 1) as nat);
    }
}

/// The two forms of the perpendicular offset agree at every step of every traversal.
pub proof fn lemma_offset_forms_agree(px: int, py: int, rx: int, ry: int, k: nat)
    requires
        px >= 0,
        py >= 0,
    ensures
        accumulated_offset(trace(px, py, rx, ry, k)) == closed_offset(
            trace(px, py, rx, ry, k),
            px,
            py,
            rx,
            ry,
        ),
{
    lemma_gaps_closed_form(px, py, rx, ry, k);
}

/// The first wall cell met by a ray, the number of cells stepped to reach it, and
/// the distance to it.
#[derive(Debug, Clone, Copy, PartialEq, Eq, Structural)]
pub struct RayHit {
    /// Column of the wall cell.
    pub map_x: usize,
    /// Row of the wall cell.
    pub map_y: usize,
    /// The wall cell's code.
    pub cell: u8,
    /// Whether the ray entered the wall across a horizontal grid line.
    pub side_y: bool,
    /// Cells stepped from the start cell to the wall.
    pub steps: u64,
    /// Numerator of the distance to the wall in cells, `dist_num / dist_den`:
    /// along the ray for `cast`, perpendicular to the camera for `cast_ray`.
    pub dist_num: u64,
    /// Denominator of that distance; never zero.
    pub dist_den: u64,
}

/// The wall that the traversal of a ray from an empty cell ends at: the first wall
/// cell it steps into, with every cell before it empty.
pub open spec fn wall_reached(m: GridMap, px: int, py: int, rx: int, ry: int, h: RayHit) -> bool {
    let st = trace(px, py, rx, ry, h.steps as nat);
    &&& h.steps >= 1
    &&& (forall|j: nat| j < h.steps ==> #[trigger] open_cell(m, trace(px, py, rx, ry, j)))
    &&& st.mx == h.map_x && st.my == h.map_y && st.side_y == h.side_y
    &&& m.in_grid(st.mx, st.my) && m.wall(st.mx, st.my) && h.cell == m.code(st.mx, st.my)
    &&& accumulated_offset(st) == closed_offset(st, px, py, rx, ry)
    &&& accumulated_offset(st) >= 0
}

/// The component of the ray along the axis whose grid line the hit crossed.
pub open spec fn crossing_component(rx: int, ry: int, side_y: bool) -> int {
    if side_y {
        abs(ry)
    } else {
        abs(rx)
    }
}

/// What the traversal of a ray from an empty cell yields: the first wall it steps
/// into, and the distance along the ray, taken as `TRIG_ONE` long, to the grid line
/// it entered by.
pub open spec fn hit_of(m: GridMap, px: int, py: int, rx: int, ry: int, h: RayHit) -> bool {
    let st = trace(px, py, rx, ry, h.steps as nat);
    &&& wall_reached(m, px, py, rx, ry, h)
    &&& h.dist_num == accumulated_offset(st) * TRIG_ONE
    &&& h.dist_den == crossing_component(rx, ry, h.side_y) * UNITS_PER_CELL
    &&& h.dist_den > 0
}

pub open spec fn cast_ok(m: GridMap, px: int, py: int, rx: int, ry: int) -> bool {
    &&& m.wf()
    &&& px >= 0 && py >= 0
    &&& open_cell(m, start(px, py, rx, ry))
    &&& -TRIG_ONE <= rx <= TRIG_ONE && -TRIG_ONE <= ry <= TRIG_ONE
    &&& (rx != 0 || ry != 0)
}

/// Casts a ray from the world point `(px, py)`, in sub-units, along `(rx, ry)`, and
/// steps through the grid cell by cell until it enters a wall.
pub fn cast(map: &GridMap, px: u64, py: u64, rx: i64, ry: i64) -> (h: RayHit)
    requires
        cast_ok(*map, px as int, py as int, rx as int, ry as int),
    ensures
        hit_of(*map, px as int, py as int, rx as int, ry as int, h),
        h.steps <= map.width + map.height,
        h.dist_num <= 2 * 1024 * 1024 * TRIG_ONE,
        h.dist_den <= TRIG_ONE * UNITS_PER_CELL,
{
    let ghost gpx = px as int;
    let ghost gpy = py as int;
    let ghost grx = rx as int;
    let ghost gry = ry as int;
    let ax: u64 = if rx < 0 { (-rx) as u64 } else { rx as u64 };
    let ay: u64 = if ry < 0 { (-ry) as u64 } else { ry as u64 };
    let mut mx: usize = (px / UNITS_PER_CELL) as usize;
    let mut my: usize = (py / UNITS_PER_CELL) as usize;
    let mut nx: u64 = if rx < 0 {
        px - mx as u64 * UNITS_PER_CELL
    } else {
        (mx as u64 + 1) * UNITS_PER_CELL - px
    };
    let mut ny: u64 = if ry < 0 {
        py - my as u64 * UNITS_PER_CELL
    } else {
        (my as u64 + 1) * UNITS_PER_CELL - py
    };
    let mut side_y = false;
    let mut steps: u64 = 0;
    let w = map.width;
    let hgt = map.height;
    assert(gpx / 1024 < 1024 && gpy / 1024 < 1024);
    assert(gpx < 1024 * 1024 && gpy < 1024 * 1024);
    loop
        invariant_except_break
            open_cell(*map, trace(gpx, gpy, grx, gry, steps as nat)),
        invariant
            gpx == px,
            gpy == py,
            grx == rx,
            gry == ry,
            cast_ok(*map, gpx, gpy, grx, gry),
            w == map.width,
            hgt == map.height,
            ax == abs(grx),
            ay == abs(gry),
            steps + (if grx < 0 { mx as int } else { w - 1 - mx }) + (if gry < 0 { my as int } else { hgt - 1 - my }) <= w + hgt - 2,
            gpx < 1024 * 1024,
            gpy < 1024 * 1024,
            mx < w,
            my < hgt,
            (DdaState { mx: mx as int, my: my as int, nx: nx as int, ny: ny as int, side_y })
                == trace(gpx, gpy, grx, gry, steps as nat),
            nx == gap_to_exit(gpx, grx, mx as int),
            ny == gap_to_exit(gpy, gry, my as int),
            forall|j: nat| j < steps ==> #[trigger] open_cell(*map, trace(gpx, gpy, grx, gry, j)),
            steps >= 1 ==> (if side_y { ay != 0 && ny >= 1024 } else { ax != 0 && nx >= 1024 }),
        ensures
            steps >= 1,
            (DdaState { mx: mx as int, my: my as int, nx: nx as int, ny: ny as int, side_y })
                == trace(gpx, gpy, grx, gry, steps as nat),
            nx == gap_to_exit(gpx, grx, mx as int),
            ny == gap_to_exit(gpy, gry, my as int),
            forall|j: nat| j < steps ==> #[trigger] open_cell(*map, trace(gpx, gpy, grx, gry, j)),
            map.in_grid(mx as int, my as int),
            map.wall(mx as int, my as int),
            if side_y { ay != 0 && ny >= 1024 } else { ax != 0 && nx >= 1024 },
            mx < w,
            my < hgt,
            gpx < 1024 * 1024,
            gpy < 1024 * 1024,
            steps <= w + hgt,
        decreases
            (if rx < 0 { mx as int } else { w - 1 - mx }) + (if ry < 0 { my as int } else { hgt - 1 - my }),
    {
        let ghost st = trace(gpx, gpy, grx, gry, steps as nat);
        let ghost old_measure = (if grx < 0 { mx as int } else { w - 1 - mx }) + (if gry < 0 { my as int } else { hgt - 1 - my });
        let ghost old_steps = steps;
        assert(open_cell(*map, trace(gpx, gpy, grx, gry, steps as nat)));
        assert(nx <= 2 * 1024 * 1024 && ny <= 2 * 1024 * 1024);
        assert(nx * ay <= 2 * 1024 * 1024 * 16384 && ny * ax <= 2 * 1024 * 1024 * 16384) by (nonlinear_arith)
            requires
                nx <= 2 * 1024 * 1024,
                ny <= 2 * 1024 * 1024,
                ax <= 16384,
                ay <= 16384,
        ;
        proof {
            map.lemma_open_is_inner(mx as int, my as int);
            lemma_gaps_closed_form(gpx, gpy, grx, gry, steps as nat);
        }
        if ax != 0 && (ay == 0 || nx * ay < ny * ax) {
            if rx < 0 {
                mx = mx - 1;
            } else {
                mx = mx + 1;
            }
            nx = nx + UNITS_PER_CELL;
            side_y = false;
        } else {
            if ry < 0 {
                my = my - 1;
            } else {
                my = my + 1;
            }
            ny = ny + UNITS_PER_CELL;
            side_y = true;
        }
        steps = steps + 1;
        assert(trace(gpx, gpy, grx, gry, steps as nat) == advance(st, grx, gry));
        assert((if grx < 0 { mx as int } else { w - 1 - mx }) + (if gry < 0 { my as int } else { hgt - 1 - my }) == old_measure - 1);
        assert(forall|j: nat| j < steps ==> #[trigger] open_cell(*map, trace(gpx, gpy, grx, gry, j))) by {
            assert forall|j: nat| j < steps implies #[trigger] open_cell(*map, trace(gpx, gpy, grx, gry, j)) by {
                if j < old_steps {
                } else {
                    assert(j == old_steps);
                }
            }
        }
        if map.cell(mx, my) != 0 {
            break;
        }
    }
    assert(nx <= 2 * 1024 * 1024 && ny <= 2 * 1024 * 1024);
    proof {
        lemma_offset_forms_agree(gpx, gpy, grx, gry, steps as nat);
    }
    let (n, a) = if side_y { (ny, ay) } else { (nx, ax) };
    RayHit {
        map_x: mx,
        map_y: my,
        cell: map.cell(mx, my),
        side_y,
        steps,
        dist_num: (n - UNITS_PER_CELL) * TRIG_ONE,
        dist_den: a * UNITS_PER_CELL,
    }
}

/// A ray of unit length along the x axis from strictly inside an empty cell whose
/// next cell that way is a wall
/// meets that wall at a distance greater than 0 and at most one cell.
pub proof fn lemma_adjacent_wall_x(m: GridMap, px: int, py: int, rx: int, h: RayHit)
    requires
        cast_ok(m, px, py, rx, 0),
        abs(rx) == TRIG_ONE,
        px % UNITS_PER_CELL as int != 0,
        m.in_grid(px / UNITS_PER_CELL as int + step_of(rx), py / UNITS_PER_CELL as int),
        m.wall(px / UNITS_PER_CELL as int + step_of(rx), py / UNITS_PER_CELL as int),
        hit_of(m, px, py, rx, 0, h),
    ensures
        h.steps == 1,
        0 < h.dist_num <= h.dist_den,
{
    let one = trace(px, py, rx, 0, 1);
    assert(trace(px, py, rx, 0, 0) == start(px, py, rx, 0));
    assert(one == advance(trace(px, py, rx, 0, 0), rx, 0));
    if h.steps > 1 {
        assert(open_cell(m, trace(px, py, rx, 0, 1)));
    }
    vstd::arithmetic::div_mod::lemma_fundamental_div_mod(px, UNITS_PER_CELL as int);
    vstd::arithmetic::div_mod::lemma_mod_bound(px, UNITS_PER_CELL as int);
    let off = accumulated_offset(one);
    assert(off == gap_to_exit(px, rx, px / UNITS_PER_CELL as int));
    assert(0 < off <= UNITS_PER_CELL);
}

/// A ray of unit length along the y axis from strictly inside an empty cell whose
/// next cell that way is a wall
/// meets that wall at a distance greater than 0 and at most one cell.
pub proof fn lemma_adjacent_wall_y(m: GridMap, px: int, py: int, ry: int, h: RayHit)
    requires
        cast_ok(m, px, py, 0, ry),
        abs(ry) == TRIG_ONE,
        py % UNITS_PER_CELL as int != 0,
        m.in_grid(px / UNITS_PER_CELL as int, py / UNITS_PER_CELL as int + step_of(ry)),
        m.wall(px / UNITS_PER_CELL as int, py / UNITS_PER_CELL as int + step_of(ry)),
        hit_of(m, px, py, 0, ry, h),
    ensures
        h.steps == 1,
        0 < h.dist_num <= h.dist_den,
{
    let one = trace(px, py, 0, ry, 1);
    assert(trace(px, py, 0, ry, 0) == start(px, py, 0, ry));
    assert(one == advance(trace(px, py, 0, ry, 0), 0, ry));
    if h.steps > 1 {
        assert(open_cell(m, trace(px, py, 0, ry, 1)));
    }
    vstd::arithmetic::div_mod::lemma_fundamental_div_mod(py, UNITS_PER_CELL as int);
    vstd::arithmetic::div_mod::lemma_mod_bound(py, UNITS_PER_CELL as int);
    let off = accumulated_offset(one);
    assert(off == gap_to_exit(py, ry, py / UNITS_PER_CELL as int));
    assert(0 < off <= UNITS_PER_CELL);
}

} // verus!
