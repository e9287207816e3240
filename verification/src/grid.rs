use vstd::prelude::*;
use crate::consts::MAX_CELLS;

verus! {

/// What a cell lookup reports.
#[derive(Copy, Clone, Debug, PartialEq, Eq, Structural)]
pub enum Cell {
    /// The indices lie outside the grid.
    OutOfBounds,
    /// A passable cell.
    Empty,
    /// A wall, with its texture id.
    Wall(u8),
}

/// The mathematical content of a grid: its rows from north to south, and
/// the number of columns.
pub struct GridView {
    pub rows: Seq<Seq<u8>>,
    pub width: nat,
}

impl GridView {
    pub open spec fn height(self) -> nat {
        self.rows.len()
    }

    /// Every row has `width` cells.
    pub open spec fn wf(self) -> bool {
        forall|r: int| 0 <= r < self.rows.len() ==> (#[trigger] self.rows[r]).len() == self.width
    }

    pub open spec fn in_bounds(self, x: int, y: int) -> bool {
        0 <= x < self.width && 0 <= y < self.rows.len()
    }

    /// The three-valued lookup: a byte `0` is passable, a byte `v > 0` is a
    /// wall with texture id `v - 1`.
    pub open spec fn cell(self, x: int, y: int) -> Cell {
        if !self.in_bounds(x, y) {
            Cell::OutOfBounds
        } else if self.rows[y][x] == 0 {
            Cell::Empty
        } else {
            Cell::Wall((self.rows[y][x] - 1) as u8)
        }
    }

    /// Every wall of the grid has a texture id below `n`.
    pub open spec fn textures_below(self, n: int) -> bool {
        forall|x: int, y: int| #[trigger]
            self.cell(x, y) matches Cell::Wall(t) ==> t < n
    }

    /// The grid with its columns in reverse order.
    pub open spec fn mirrored_x(self) -> GridView {
        GridView {
            rows: Seq::new(
                self.rows.len(),
                |r: int| Seq::new(self.width, |c: int| self.rows[r][self.width - 1 - c]),
            ),
            width: self.width,
        }
    }

    /// The grid with its rows in reverse order.
    pub open spec fn mirrored_y(self) -> GridView {
        GridView {
            rows: Seq::new(
                self.rows.len(),
                |r: int| Seq::new(self.width, |c: int| self.rows[self.rows.len() - 1 - r][c]),
            ),
            width: self.width,
        }
    }

    /// The grid with its two axes swapped.
    pub open spec fn transposed(self) -> GridView {
        GridView {
            rows: Seq::new(
                self.width,
                |r: int| Seq::new(self.rows.len(), |c: int| self.rows[c][r]),
            ),
            width: self.rows.len(),
        }
    }
}

/// A read-only grid of wall and empty cells, one byte per cell, borrowed
/// from the caller.
#[verifier::external_body]
pub struct GridMap<'a> {
    cells: ndarray::ArrayView2<'a, u8>,
}

/// The rows of the array behind a grid, first axis first.
pub uninterp spec fn grid_rows(g: GridMap) -> Seq<Seq<u8>>;

/// The length of the second axis of the array behind a grid.
pub uninterp spec fn grid_width(g: GridMap) -> nat;

impl<'a> View for GridMap<'a> {
    type V = GridView;

    open spec fn view(&self) -> GridView {
        GridView { rows: grid_rows(*self), width: grid_width(*self) }
    }
}

/// `ArrayView2::from_shape` with the shape `(height, width)` in the default
/// row-major layout: for a slice of exactly `height * width` bytes the view
/// is made, and row `r` is the `r`-th run of `width` bytes.
#[verifier::external_body]
fn view_of<'a>(cells: &'a [u8], width: usize, height: usize) -> (g: Option<GridMap<'a>>)
    requires
        width <= MAX_CELLS,
        height <= MAX_CELLS,
        cells@.len() == width * height,
    ensures
        g is Some,
        grid_width(g->0) == width,
        grid_rows(g->0) == Seq::new(
            height as nat,
            |r: int| cells@.subrange(r * width, r * width + width),
        ),
{
    match ndarray::ArrayView2::from_shape((height, width), cells) {
        Ok(view) => Some(GridMap { cells: view }),
        Err(_) => None,
    }
}

/// `ArrayBase::dim`: the lengths of the two axes, rows first.
#[verifier::external_body]
fn dims(g: &GridMap) -> (d: (usize, usize))
    ensures
        d.0 == grid_rows(*g).len(),
        d.1 == grid_width(*g),
{
    g.cells.dim()
}

/// Indexing of the array with `[[row, col]]`, which panics out of bounds.
#[verifier::external_body]
fn byte_at(g: &GridMap, row: usize, col: usize) -> (v: u8)
    requires
        row < grid_rows(*g).len(),
        col < grid_width(*g),
    ensures
        v == grid_rows(*g)[row as int][col as int],
{
    g.cells[[row, col]]
}

/// `ArrayBase::invert_axis` on the second axis of a copy of the view: the
/// same rows, each read from its last cell to its first.
#[verifier::external_body]
fn inverted_columns<'a>(g: &GridMap<'a>) -> (m: GridMap<'a>)
    ensures
        m@ == g@.mirrored_x(),
{
    let mut view = g.cells;
    view.invert_axis(ndarray::Axis(1));
    GridMap { cells: view }
}

/// `ArrayBase::invert_axis` on the first axis of a copy of the view: the
/// rows in reverse order.
#[verifier::external_body]
fn inverted_rows<'a>(g: &GridMap<'a>) -> (m: GridMap<'a>)
    ensures
        m@ == g@.mirrored_y(),
{
    let mut view = g.cells;
    view.invert_axis(ndarray::Axis(0));
    GridMap { cells: view }
}

/// `ArrayBase::reversed_axes` on a copy of the view: cell `(r, c)` of the
/// result is cell `(c, r)` of the grid.
#[verifier::external_body]
fn reversed_axes<'a>(g: &GridMap<'a>) -> (m: GridMap<'a>)
    ensures
        m@ == g@.transposed(),
{
    GridMap { cells: g.cells.reversed_axes() }
}

impl<'a> GridMap<'a> {
    /// A grid over `cells`, read row by row, `width` cells to a row. `None`
    /// unless there are exactly `width * height` cells and neither axis is
    /// longer than `MAX_CELLS`.
    pub fn new(cells: &'a [u8], width: usize, height: usize) -> (g: Option<GridMap<'a>>)
        ensures
            g is Some <==> (width <= MAX_CELLS && height <= MAX_CELLS && cells@.len() == width
                * height),
            g is Some ==> g->0@.wf() && g->0@.width == width && g->0@.height() == height,
            g is Some ==> g->0@.rows == Seq::new(
                height as nat,
                |r: int| cells@.subrange(r * width, r * width + width),
            ),
    {
        if width > MAX_CELLS || height > MAX_CELLS {
            return None;
        }
        assert(width * height <= 4096 * 4096) by (nonlinear_arith)
            requires
                width <= 4096,
                height <= 4096,
        ;
        if cells.len() != width * height {
            return None;
        }
        let g = view_of(cells, width, height);
        proof {
            assert forall|r: int| 0 <= r < g->0@.rows.len() implies (#[trigger] g->0@.rows[r]).len()
                == width by {
                assert(0 <= r * width && r * width + width <= width * height)
                    by (nonlinear_arith)
                    requires
                        0 <= r < height,
                        0 <= width,
                ;
            }
        }
        g
    }

    /// Number of columns.
    pub fn width(&self) -> (w: usize)
        ensures
            w == self@.width,
    {
        dims(self).1
    }

    /// Number of rows.
    pub fn height(&self) -> (h: usize)
        ensures
            h == self@.height(),
    {
        dims(self).0
    }

    /// Looks a cell up by its column `cell_x` and row `cell_y`, checking the
    /// bounds first: indices outside the grid are reported as such and never
    /// wrap around.
    pub fn wall_at(&self, cell_x: i64, cell_y: i64) -> (c: Cell)
        ensures
            c == self@.cell(cell_x as int, cell_y as int),
    {
        let d = dims(self);
        if cell_x < 0 || cell_y < 0 {
            return Cell::OutOfBounds;
        }
        if cell_x as u64 >= d.1 as u64 || cell_y as u64 >= d.0 as u64 {
            return Cell::OutOfBounds;
        }
        let v = byte_at(self, cell_y as usize, cell_x as usize);
        if v == 0 {
            Cell::Empty
        } else {
            Cell::Wall(v - 1)
        }
    }

    /// Whether every wall of the grid has a texture id below `limit`.
    pub fn textures_below(&self, limit: usize) -> (ok: bool)
        ensures
            ok == self@.textures_below(limit as int),
    {
        let d = dims(self);
        let mut y: usize = 0;
        while y < d.0
            invariant
                y <= d.0,
                d.0 == self@.rows.len(),
                d.1 == self@.width,
                forall|c: int, r: int|
                    0 <= r < y && 0 <= c < d.1 ==> (#[trigger] self@.cell(c, r) matches Cell::Wall(
                        t,
                    ) ==> t < limit),
            decreases d.0 - y,
        {
            let mut x: usize = 0;
            while x < d.1
                invariant
                    y < d.0,
                    x <= d.1,
                    d.0 == self@.rows.len(),
                    d.1 == self@.width,
                    forall|c: int, r: int|
                        0 <= r < y && 0 <= c < d.1 ==> (#[trigger] self@.cell(c, r) matches Cell::Wall(
                            t,
                        ) ==> t < limit),
                    forall|c: int|
                        0 <= c < x ==> (#[trigger] self@.cell(c, y as int) matches Cell::Wall(t)
                            ==> t < limit),
                decreases d.1 - x,
            {
                let v = byte_at(self, y, x);
                if v != 0 && (v - 1) as usize >= limit {
                    assert(self@.cell(x as int, y as int) == Cell::Wall((v - 1) as u8));
                    return false;
                }
                x = x + 1;
            }
            y = y + 1;
        }
        assert forall|c: int, r: int| #[trigger]
            self@.cell(c, r) matches Cell::Wall(t) ==> t < limit by {
            if self@.cell(c, r) is Wall {
                assert(self@.in_bounds(c, r));
            }
        }
        true
    }

    /// This grid seen with west and east exchanged.
    pub fn mirrored_x(&self) -> (m: GridMap<'a>)
        ensures
            m@ == self@.mirrored_x(),
    {
        inverted_columns(self)
    }

    /// This grid seen with north and south exchanged.
    pub fn mirrored_y(&self) -> (m: GridMap<'a>)
        ensures
            m@ == self@.mirrored_y(),
    {
        inverted_rows(self)
    }

    /// This grid seen with its axes exchanged.
    pub fn transposed(&self) -> (m: GridMap<'a>)
        ensures
            m@ == self@.transposed(),
    {
        reversed_axes(self)
    }
}

} // verus!
