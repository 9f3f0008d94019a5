use vstd::prelude::*;

verus! {

/// Sub-units of world space that make up one grid cell along an axis.
pub const UNITS_PER_CELL: u64 = 1024;

/// Largest number of cells along either side of a map.
pub const MAX_CELLS: usize = 1024;

/// Why a grid of cell codes cannot serve as a world map.
#[derive(Debug, Clone, Copy, PartialEq, Eq, Structural)]
pub enum MapError {
    /// Fewer than three or more than `MAX_CELLS` rows or columns. The upper limit
    /// is one of representation: it keeps fixed-point positions, the distances the
    /// ray caster accumulates and their products within 64 bits.
    Size,
    /// Some row is not as long as the first.
    NotRectangular,
    /// A cell on the outer ring of the grid is empty.
    OpenBorder,
}

pub open spec fn size_ok(cells: Seq<Vec<u8>>) -> bool {
    &&& 3 <= cells.len() <= MAX_CELLS
    &&& 3 <= cells[0]@.len() <= MAX_CELLS
}

pub open spec fn rectangular(cells: Seq<Vec<u8>>) -> bool {
    forall|y: int| 0 <= y < cells.len() ==> (#[trigger] cells[y])@.len() == cells[0]@.len()
}

pub open spec fn on_border(w: int, h: int, x: int, y: int) -> bool {
    x == 0 || y == 0 || x == w - 1 || y == h - 1
}

/// Every cell of the outer ring holds a wall code.
pub open spec fn bordered(cells: Seq<Vec<u8>>) -> bool {
    forall|x: int, y: int|
        0 <= y < cells.len() && 0 <= x < cells[0]@.len() && on_border(
            cells[0]@.len() as int,
            cells.len() as int,
            x,
            y,
        ) ==> #[trigger] cells[y]@[x] != 0
}

/// A rectangular grid of cell codes, 0 for an empty cell and anything else
/// for a wall, indexed as `cells[row][column]`.
pub struct GridMap {
    pub cells: Vec<Vec<u8>>,
    pub width: usize,
    pub height: usize,
}

impl GridMap {
    pub open spec fn wf(&self) -> bool {
        &&& size_ok(self.cells@)
        &&& rectangular(self.cells@)
        &&& bordered(self.cells@)
        &&& self.height == self.cells@.len()
        &&& self.width == self.cells@[0]@.len()
    }

    pub open spec fn code(&self, x: int, y: int) -> u8 {
        self.cells@[y]@[x]
    }

    pub open spec fn in_grid(&self, x: int, y: int) -> bool {
        0 <= x < self.width && 0 <= y < self.height
    }

    pub open spec fn wall(&self, x: int, y: int) -> bool {
        self.code(x, y) != 0
    }

    /// An empty cell lies off the outer ring, so all four neighbours are in the grid.
    pub proof fn lemma_open_is_inner(&self, x: int, y: int)
        requires
            self.wf(),
            self.in_grid(x, y),
            !self.wall(x, y),
        ensures
            1 <= x < self.width - 1,
            1 <= y < self.height - 1,
    {
        if on_border(self.width as int, self.height as int, x, y) {
            assert(self.cells@[y]@[x] != 0);
        }
    }

    /// Builds a map from rows of cell codes; the grid must be rectangular,
    /// between 3 and `MAX_CELLS` cells on each side, and walled all round.
    pub fn new(cells: Vec<Vec<u8>>) -> (r: Result<GridMap, MapError>)
        ensures
            r == Err::<GridMap, MapError>(MapError::Size) <==> !size_ok(cells@),
            r == Err::<GridMap, MapError>(MapError::NotRectangular) <==> size_ok(cells@)
                && !rectangular(cells@),
            r == Err::<GridMap, MapError>(MapError::OpenBorder) <==> size_ok(cells@)
                && rectangular(cells@) && !bordered(cells@),
            r is Ok <==> size_ok(cells@) && rectangular(cells@) && bordered(cells@),
            r matches Ok(m) ==> m.wf() && m.cells@ == cells@,
    {
        let h = cells.len();
        if h < 3 || h > MAX_CELLS {
            return Err(MapError::Size);
        }
        let w = cells[0].len();
        if w < 3 || w > MAX_CELLS {
            return Err(MapError::Size);
        }
        let mut y: usize = 0;
        while y < h
            invariant
                size_ok(cells@),
                h == cells@.len(),
                w == cells@[0]@.len(),
                0 <= y <= h,
                forall|j: int| 0 <= j < y ==> (#[trigger] cells@[j])@.len() == w,
            decreases h - y,
        {
            if cells[y].len() != w {
                assert(!rectangular(cells@));
                return Err(MapError::NotRectangular);
            }
            y = y + 1;
        }
        let mut y: usize = 0;
        while y < h
            invariant
                size_ok(cells@),
                rectangular(cells@),
                h == cells@.len(),
                w == cells@[0]@.len(),
                0 <= y <= h,
                forall|x: int, j: int|
                    0 <= j < y && 0 <= x < w && on_border(w as int, h as int, x, j)
                        ==> #[trigger] cells@[j]@[x] != 0,
            decreases h - y,
        {
            let row = &cells[y];
            let mut x: usize = 0;
            while x < w
                invariant
                    size_ok(cells@),
                    rectangular(cells@),
                    h == cells@.len(),
                    w == cells@[0]@.len(),
                    0 <= y < h,
                    0 <= x <= w,
                    row@ == cells@[y as int]@,
                    forall|i: int, j: int|
                        0 <= j < y && 0 <= i < w && on_border(w as int, h as int, i, j)
                            ==> #[trigger] cells@[j]@[i] != 0,
                    forall|i: int|
                        0 <= i < x && on_border(w as int, h as int, i, y as int)
                            ==> #[trigger] cells@[y as int]@[i] != 0,
                decreases w - x,
            {
                assert(cells@[y as int]@.len() == w);
                if (x == 0 || y == 0 || x == w - 1 || y == h - 1) && row[x] == 0 {
                    assert(!bordered(cells@));
                    return Err(MapError::OpenBorder);
                }
                x = x + 1;
            }
            y = y + 1;
        }
        Ok(GridMap { cells, width: w, height: h })
    }

    /// The code of the cell in column `x`, row `y`.
    pub fn cell(&self, x: usize, y: usize) -> (r: u8)
        requires
            self.wf(),
            self.in_grid(x as int, y as int),
        ensures
            r == self.code(x as int, y as int),
    {
        assert(self.cells@[y as int]@.len() == self.width);
        self.cells[y][x]
    }

    /// Whether the world point `(x, y)`, in sub-units, lies in a wall cell.
    pub fn is_wall(&self, x: u64, y: u64) -> (r: bool)
        requires
            self.wf(),
            self.in_grid((x / UNITS_PER_CELL) as int, (y / UNITS_PER_CELL) as int),
        ensures
            r == self.wall((x / UNITS_PER_CELL) as int, (y / UNITS_PER_CELL) as int),
    {
        self.cell((x / UNITS_PER_CELL) as usize, (y / UNITS_PER_CELL) as usize) != 0
    }
}

} // verus!
