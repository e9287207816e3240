use vstd::prelude::*;
use vstd::arithmetic::div_mod::*;
use crate::consts::{MAX_CELLS, MAX_DIR, MAX_EXTENT, SQUARE_SZ};
use crate::grid::{Cell, GridMap, GridView};
use crate::laws::{
    ahead_on, enclosed, entry_cell, lemma_closed_room_always_hits, lemma_scan_on_grid_line,
    lemma_scan_on_ray, lemma_strike_on_grid_line, lemma_strike_on_ray,
};
use crate::path::{faces_wall, lemma_scan_faces_wall, lemma_strike_faces_wall};
use crate::textures::{Side, TextureSpec};

verus! {

/// A position or a direction in the plane, in sub-units. `x` grows to the
/// east and `y` to the south.
#[derive(Copy, Clone, Debug, PartialEq, Eq, Structural)]
pub struct Point {
    pub x: i64,
    pub y: i64,
}

/// Where a ray struck a wall. The coordinates and the face offset are exact
/// fractions over the common denominator `den`: the point is
/// `(x / den, y / den)` and the offset along the face is `u / den`.
#[derive(Copy, Clone, Debug, PartialEq, Eq, Structural)]
pub struct Hit {
    pub x: i128,
    pub y: i128,
    pub u: i128,
    pub den: i128,
    pub texture: TextureSpec,
}

/// A ray over the mathematical integers: origin `(ox, oy)`, direction
/// `(dx, dy)`.
pub struct Ray {
    pub ox: int,
    pub oy: int,
    pub dx: int,
    pub dy: int,
}

/// A strike over the mathematical integers; see `Hit`.
pub struct Strike {
    pub x: int,
    pub y: int,
    pub u: int,
    pub den: int,
    pub texture: TextureSpec,
}

/// What the traversal learns at one vertical grid line.
pub enum Step {
    /// Neither probed cell stopped the ray.
    Pass,
    /// The ray ends here, on a wall or by leaving the grid.
    Stop(Option<Strike>),
}

impl View for Hit {
    type V = Strike;

    open spec fn view(&self) -> Strike {
        Strike {
            x: self.x as int,
            y: self.y as int,
            u: self.u as int,
            den: self.den as int,
            texture: self.texture,
        }
    }
}

pub open spec fn ray_of(o: Point, dir: Point) -> Ray {
    Ray { ox: o.x as int, oy: o.y as int, dx: dir.x as int, dy: dir.y as int }
}

pub open spec fn strike_of(hit: Option<Hit>) -> Option<Strike> {
    match hit {
        Some(h) => Some(h@),
        None => None,
    }
}

/// A face offset measured from the other end of the face: `S - u` as a
/// numerator over `den`, and 0 where the offset is 0, so that an offset
/// stays below `S`.
pub open spec fn turned(u: int, den: int) -> int {
    if u == 0 {
        0
    } else {
        SQUARE_SZ * den - u
    }
}

impl Strike {
    /// The strike as seen after west and east are exchanged in a world
    /// `extent` sub-units wide.
    pub open spec fn mirrored_x(self, extent: int) -> Strike {
        Strike {
            x: extent * self.den - self.x,
            y: self.y,
            u: turned(self.u, self.den),
            den: self.den,
            texture: self.texture,
        }
    }

    /// The strike as seen after north and south are exchanged in a world
    /// `extent` sub-units high.
    pub open spec fn mirrored_y(self, extent: int) -> Strike {
        Strike {
            x: self.x,
            y: extent * self.den - self.y,
            u: turned(self.u, self.den),
            den: self.den,
            texture: self.texture,
        }
    }

    /// The strike as seen after the two axes are exchanged.
    pub open spec fn transposed(self) -> Strike {
        Strike {
            x: self.y,
            y: self.x,
            u: turned(self.u, self.den),
            den: self.den,
            texture: self.texture.spec_flipped(),
        }
    }

    /// The offset lies on one face: it is at least 0 and less than `S`.
    pub open spec fn offset_ok(self) -> bool {
        0 < self.den && 0 <= self.u < SQUARE_SZ * self.den
    }

    /// The strike lies in a world of `w` by `h` cells, and its offset on one
    /// face.
    pub open spec fn within(self, w: int, h: int) -> bool {
        &&& 0 < self.den <= MAX_DIR
        &&& 0 <= self.x <= w * SQUARE_SZ * self.den
        &&& 0 <= self.y <= h * SQUARE_SZ * self.den
        &&& 0 <= self.u < SQUARE_SZ * self.den
    }

    /// The coordinate across the struck face is a whole number of cells.
    pub open spec fn on_grid_line(self) -> bool {
        match self.texture.side {
            Side::WestEast => exists|k: int| self.x == #[trigger] grid_line(k, self.den),
            Side::NorthSouth => exists|k: int| self.y == #[trigger] grid_line(k, self.den),
        }
    }
}

/// The grid line with index `k`, as a numerator over `den`.
pub open spec fn grid_line(k: int, den: int) -> int {
    k * SQUARE_SZ * den
}

pub open spec fn mirror_x_of(s: Option<Strike>, extent: int) -> Option<Strike> {
    match s {
        Some(s) => Some(s.mirrored_x(extent)),
        None => None,
    }
}

pub open spec fn mirror_y_of(s: Option<Strike>, extent: int) -> Option<Strike> {
    match s {
        Some(s) => Some(s.mirrored_y(extent)),
        None => None,
    }
}

pub open spec fn transpose_of(s: Option<Strike>) -> Option<Strike> {
    match s {
        Some(s) => Some(s.transposed()),
        None => None,
    }
}

impl Ray {
    pub open spec fn mirrored_x(self, extent: int) -> Ray {
        Ray { ox: extent - self.ox, oy: self.oy, dx: -self.dx, dy: self.dy }
    }

    pub open spec fn mirrored_y(self, extent: int) -> Ray {
        Ray { ox: self.ox, oy: extent - self.oy, dx: self.dx, dy: -self.dy }
    }

    pub open spec fn transposed(self) -> Ray {
        Ray { ox: self.oy, oy: self.ox, dx: self.dy, dy: self.dx }
    }

    /// The ray runs east, and south no faster than east.
    pub open spec fn canonical(self) -> bool {
        0 <= self.dy <= self.dx && 0 < self.dx
    }

    /// The origin lies in or on the edge of a world of `w` by `h` cells.
    pub open spec fn starts_within(self, w: int, h: int) -> bool {
        0 <= self.ox <= w * SQUARE_SZ && 0 <= self.oy <= h * SQUARE_SZ
    }

    /// Index of the first vertical grid line east of the origin.
    pub open spec fn first_line(self) -> int {
        self.ox / (SQUARE_SZ as int) + 1
    }

    /// `dx` times the ray's `y` where it crosses the vertical line `x`.
    pub open spec fn y_at(self, x: int) -> int {
        self.oy * self.dx + self.dy * (x * SQUARE_SZ - self.ox)
    }

    /// The row in which the ray crosses the vertical line `x`.
    pub open spec fn row_at(self, x: int) -> int {
        self.y_at(x) / (self.dx * SQUARE_SZ)
    }

    /// The row in which the ray entered the column west of line `x`.
    pub open spec fn row_before(self, x: int) -> int {
        if x == self.first_line() {
            self.oy / (SQUARE_SZ as int)
        } else {
            self.row_at(x - 1)
        }
    }

    /// `dy` times the ray's `x` where it crosses the horizontal line `row`.
    pub open spec fn x_at(self, row: int) -> int {
        self.ox * self.dy + self.dx * (row * SQUARE_SZ - self.oy)
    }

    /// The strike on the north face of a wall in `row`. The offset is
    /// measured from the east end of the cell's face, and is 0 at a grid
    /// corner.
    pub open spec fn north_south_strike(self, row: int, tx: u8) -> Strike {
        Strike {
            x: self.x_at(row),
            y: row * SQUARE_SZ * self.dy,
            u: turned(self.x_at(row) % (self.dy * SQUARE_SZ), self.dy),
            den: self.dy,
            texture: TextureSpec { tx, side: Side::NorthSouth },
        }
    }

    /// The strike on the west face of a wall in column `x`. The offset is
    /// measured from the north end of the cell's face.
    pub open spec fn west_east_strike(self, x: int, tx: u8) -> Strike {
        Strike {
            x: x * SQUARE_SZ * self.dx,
            y: self.y_at(x),
            u: self.y_at(x) % (self.dx * SQUARE_SZ),
            den: self.dx,
            texture: TextureSpec { tx, side: Side::WestEast },
        }
    }

    /// What happens where a canonical ray reaches the vertical line `x`. If
    /// the ray changed row on its way through the column west of the line,
    /// the cell it entered there is probed first; then the cell east of the
    /// line. A ray through a grid corner therefore meets the north face, at
    /// the end of that face.
    pub open spec fn step(self, g: GridView, x: int) -> Step {
        let row = self.row_at(x);
        let entered = if row != self.row_before(x) {
            g.cell(x - 1, row)
        } else {
            Cell::Empty
        };
        match entered {
            Cell::OutOfBounds => Step::Stop(None),
            Cell::Wall(tx) => Step::Stop(Some(self.north_south_strike(row, tx))),
            Cell::Empty => match g.cell(x, row) {
                Cell::OutOfBounds => Step::Stop(None),
                Cell::Wall(tx) => Step::Stop(Some(self.west_east_strike(x, tx))),
                Cell::Empty => Step::Pass,
            },
        }
    }

    /// The outcome of walking a canonical ray east from the vertical line
    /// `x`: that of the first line at which it stops. The last line is the
    /// grid's east edge, where a north face in the last column can still be
    /// struck; beyond it the ray has left the grid.
    pub open spec fn scan(self, g: GridView, x: int) -> Option<Strike>
        decreases g.width + 1 - x,
    {
        if x > g.width {
            None
        } else {
            match self.step(g, x) {
                Step::Stop(s) => s,
                Step::Pass => self.scan(g, x + 1),
            }
        }
    }

    /// The first wall struck by a canonical ray.
    pub open spec fn cast_south_east_east(self, g: GridView) -> Option<Strike> {
        self.scan(g, self.first_line())
    }

    /// The first wall struck by a ray that runs east and south.
    pub open spec fn cast_south_east(self, g: GridView) -> Option<Strike> {
        if self.dy > self.dx {
            transpose_of(self.transposed().cast_south_east_east(g.transposed()))
        } else {
            self.cast_south_east_east(g)
        }
    }

    /// The first wall struck by a ray that runs east.
    pub open spec fn cast_east(self, g: GridView) -> Option<Strike> {
        if self.dy < 0 {
            let extent = g.height() * SQUARE_SZ;
            mirror_y_of(self.mirrored_y(extent).cast_south_east(g.mirrored_y()), extent)
        } else {
            self.cast_south_east(g)
        }
    }

    /// The first wall struck by a ray, or `None` where it leaves the grid
    /// before striking one.
    pub open spec fn cast(self, g: GridView) -> Option<Strike> {
        if self.dx < 0 {
            let extent = g.width * SQUARE_SZ;
            mirror_x_of(self.mirrored_x(extent).cast_east(g.mirrored_x()), extent)
        } else {
            self.cast_east(g)
        }
    }
}

pub open spec fn small_grid(g: GridView) -> bool {
    g.width <= MAX_CELLS && g.height() <= MAX_CELLS
}

// In the bounds below, 268435456 is `MAX_EXTENT` and 281474976710656 is
// `MAX_DIR`.
pub(crate) proof fn lemma_product_bound(a: int, b: int, ma: int, mb: int)
    by (nonlinear_arith)
    requires
        0 <= a <= ma,
        0 <= b <= mb,
    ensures
        0 <= a * b <= ma * mb,
{
}

pub(crate) proof fn lemma_y_at_next(r: Ray, x: int)
    by (nonlinear_arith)
    ensures
        r.y_at(x + 1) == r.y_at(x) + r.dy * SQUARE_SZ,
{
}

proof fn lemma_y_at_bounds(r: Ray, x: int, w: int, h: int)
    requires
        r.canonical(),
        r.dx <= MAX_DIR,
        r.starts_within(w, h),
        0 <= w <= MAX_CELLS,
        0 <= h <= MAX_CELLS,
        r.ox <= x * SQUARE_SZ,
        x <= w,
    ensures
        r.oy * r.dx <= r.y_at(x) <= 2 * (268435456 * 281474976710656),
        0 <= r.oy * r.dx,
        0 <= r.row_at(x) <= w + h,
{
    let reach = r.oy + x * SQUARE_SZ - r.ox;
    lemma_product_bound(r.oy, r.dx, 268435456, 281474976710656);
    lemma_product_bound(r.dy, x * SQUARE_SZ - r.ox, 281474976710656, 268435456);
    assert(r.y_at(x) <= r.dx * reach) by (nonlinear_arith)
        requires
            r.y_at(x) == r.oy * r.dx + r.dy * (x * SQUARE_SZ - r.ox),
            reach == r.oy + x * SQUARE_SZ - r.ox,
            0 <= r.dy <= r.dx,
            0 <= x * SQUARE_SZ - r.ox,
    ;
    lemma_div_is_ordered(r.y_at(x), r.dx * reach, r.dx * SQUARE_SZ);
    lemma_div_multiples_vanish_quotient(r.dx, reach, SQUARE_SZ as int);
    lemma_div_pos_is_pos(r.y_at(x), r.dx * SQUARE_SZ);
}

/// Dividing `oy * dx` by `dx * S` gives the origin's row.
pub(crate) proof fn lemma_origin_row(r: Ray)
    requires
        0 < r.dx,
        0 <= r.oy,
    ensures
        (r.oy * r.dx) / (r.dx * SQUARE_SZ) == r.oy / (SQUARE_SZ as int),
{
    lemma_div_multiples_vanish_quotient(r.dx, r.oy, SQUARE_SZ as int);
    assert(r.oy * r.dx == r.dx * r.oy) by (nonlinear_arith);
}

proof fn lemma_rows_ordered(r: Ray, a: int, b: int)
    requires
        0 < r.dx,
        a <= b,
    ensures
        a / (r.dx * SQUARE_SZ) <= b / (r.dx * SQUARE_SZ),
{
    lemma_div_is_ordered(a, b, r.dx * SQUARE_SZ);
}

/// Facts about a strike on a north face, found at line `x` in `row`.
proof fn lemma_north_south(r: Ray, x: int, row: int, w: int, h: int)
    requires
        r.canonical(),
        r.dx <= MAX_DIR,
        r.starts_within(w, h),
        0 <= w <= MAX_CELLS,
        0 <= h <= MAX_CELLS,
        r.ox <= x * SQUARE_SZ,
        x <= w,
        row == r.row_at(x),
        r.oy / (SQUARE_SZ as int) < row < h,
    ensures
        0 < r.dy,
        0 <= r.x_at(row) <= x * SQUARE_SZ * r.dy,
        0 < row * SQUARE_SZ - r.oy <= 268435456,
        0 <= r.ox * r.dy <= 268435456 * 281474976710656,
        0 <= r.dx * (row * SQUARE_SZ - r.oy) <= 281474976710656 * 268435456,
        0 <= row * SQUARE_SZ * r.dy <= h * SQUARE_SZ * r.dy <= 268435456 * 281474976710656,
{
    let d = r.dx * SQUARE_SZ;
    let y = r.y_at(x);
    lemma_y_at_bounds(r, x, w, h);
    if r.dy == 0 {
        assert(y == r.oy * r.dx) by (nonlinear_arith)
            requires
                y == r.oy * r.dx + r.dy * (x * SQUARE_SZ - r.ox),
                r.dy == 0,
        ;
        lemma_origin_row(r);
    }
    lemma_fundamental_div_mod(y, d);
    lemma_mod_bound(y, d);
    assert(d * row <= y);
    lemma_product_bound(r.ox, r.dy, 268435456, 281474976710656);
    lemma_product_bound(r.dx, row * SQUARE_SZ - r.oy, 281474976710656, 268435456);
    assert(r.x_at(row) <= x * SQUARE_SZ * r.dy) by (nonlinear_arith)
        requires
            (r.dx * SQUARE_SZ) * row <= r.oy * r.dx + r.dy * (x * SQUARE_SZ - r.ox),
            r.x_at(row) == r.ox * r.dy + r.dx * (row * SQUARE_SZ - r.oy),
    ;
    assert(0 <= row * SQUARE_SZ * r.dy <= h * SQUARE_SZ * r.dy <= 268435456 * 281474976710656)
        by (nonlinear_arith)
        requires
            0 <= row < h <= 4096,
            0 < r.dy <= 281474976710656,
    ;
}

/// Facts about a strike on a west face, found at line `x` in `row`.
proof fn lemma_west_east(r: Ray, x: int, row: int, w: int, h: int)
    requires
        r.canonical(),
        r.dx <= MAX_DIR,
        r.starts_within(w, h),
        0 <= w <= MAX_CELLS,
        0 <= h <= MAX_CELLS,
        r.ox <= x * SQUARE_SZ,
        0 <= x < w,
        row == r.row_at(x),
        0 <= row < h,
    ensures
        0 <= x * SQUARE_SZ * r.dx <= w * SQUARE_SZ * r.dx <= 268435456 * 281474976710656,
        0 <= r.y_at(x) <= h * SQUARE_SZ * r.dx,
        0 <= r.y_at(x) % (r.dx * SQUARE_SZ) < r.dx * SQUARE_SZ,
{
    let d = r.dx * SQUARE_SZ;
    let y = r.y_at(x);
    lemma_y_at_bounds(r, x, w, h);
    lemma_fundamental_div_mod(y, d);
    lemma_mod_bound(y, d);
    assert(y < d * (row + 1)) by (nonlinear_arith)
        requires
            y == d * row + y % d,
            y % d < d,
    ;
    assert(d * (row + 1) <= h * SQUARE_SZ * r.dx) by (nonlinear_arith)
        requires
            d == r.dx * SQUARE_SZ,
            row + 1 <= h,
            0 < r.dx,
    ;
    assert(0 <= x * SQUARE_SZ * r.dx <= w * SQUARE_SZ * r.dx <= 268435456 * 281474976710656)
        by (nonlinear_arith)
        requires
            0 <= x < w <= 4096,
            0 < r.dx <= 281474976710656,
    ;
}

/// Walks a canonical ray east, one grid column at a time, and reports the
/// first wall it strikes. The walk ends at the grid's east edge, where a
/// north face in the last column can still be struck.
pub fn cast_ray_south_east_east(map: &GridMap, o: Point, dir: Point) -> (hit: Option<Hit>)
    requires
        small_grid(map@),
        ray_of(o, dir).canonical(),
        dir.x <= MAX_DIR,
        ray_of(o, dir).starts_within(map@.width as int, map@.height() as int),
    ensures
        strike_of(hit) == ray_of(o, dir).cast_south_east_east(map@),
        hit is Some ==> hit->0@.within(map@.width as int, map@.height() as int),
        hit is Some ==> hit->0@.on_grid_line(),
        hit is Some ==> ahead_on(hit->0@, ray_of(o, dir)),
        hit is Some ==> faces_wall(hit->0@, map@),
{
    let ghost r = ray_of(o, dir);
    proof {
        lemma_scan_on_grid_line(r, map@, r.first_line());
        lemma_scan_on_ray(r, map@, r.first_line());
        lemma_scan_faces_wall(r, map@, r.first_line());
    }
    let ghost g = map@;
    let ghost wi = map@.width as int;
    let ghost hi = map@.height() as int;
    let w: i64 = map.width() as i64;
    let first: i64 = o.x / SQUARE_SZ + 1;
    if first > w {
        return None;
    }
    proof {
        lemma_y_at_bounds(r, first as int, wi, hi);
        lemma_product_bound(r.oy, r.dx, 268435456, 281474976710656);
        lemma_product_bound(r.dy, first * SQUARE_SZ - r.ox, 281474976710656, 65536);
        lemma_product_bound(r.dy, SQUARE_SZ as int, 281474976710656, 65536);
        lemma_product_bound(r.dx, SQUARE_SZ as int, 281474976710656, 65536);
        lemma_origin_row(r);
        lemma_rows_ordered(r, r.oy * r.dx, r.y_at(first as int));
    }
    let dx: i128 = dir.x as i128;
    let dy: i128 = dir.y as i128;
    let side: i128 = SQUARE_SZ as i128;
    let den: i128 = dx * side;
    let step_y: i128 = dy * side;
    let mut y: i128 = o.y as i128 * dx + dy * ((first * SQUARE_SZ - o.x) as i128);
    let mut prev_row: i64 = o.y / SQUARE_SZ;
    let mut x: i64 = first;
    while x <= w
        invariant
            r == ray_of(o, dir),
            g == map@,
            wi == g.width,
            hi == g.height(),
            small_grid(g),
            r.canonical(),
            r.dx <= MAX_DIR,
            r.starts_within(wi, hi),
            w == wi,
            dx == r.dx,
            dy == r.dy,
            side == SQUARE_SZ,
            first == r.first_line(),
            first <= x <= w + 1,
            den == r.dx * SQUARE_SZ,
            step_y == r.dy * SQUARE_SZ,
            0 <= step_y <= 281474976710656 * 65536,
            y == r.y_at(x as int),
            prev_row == r.row_before(x as int),
            r.oy / (SQUARE_SZ as int) <= prev_row <= r.row_at(x as int),
            r.scan(g, first as int) == r.scan(g, x as int),
            r.scan(g, first as int) is Some ==> r.scan(g, first as int)->0.on_grid_line()
                && ahead_on(r.scan(g, first as int)->0, r) && faces_wall(
                r.scan(g, first as int)->0,
                g,
            ),
        decreases w + 1 - x,
    {
        proof {
            lemma_y_at_bounds(r, x as int, wi, hi);
        }
        let row: i64 = (y / den) as i64;
        if row != prev_row {
            match map.wall_at(x - 1, row) {
                Cell::OutOfBounds => {
                    return None;
                },
                Cell::Wall(tx) => {
                    proof {
                        lemma_north_south(r, x as int, row as int, wi, hi);
                        lemma_product_bound(r.dy, SQUARE_SZ as int, 281474976710656, 65536);
                        lemma_mod_bound(r.x_at(row as int), r.dy * SQUARE_SZ);
                        assert(x * SQUARE_SZ * r.dy <= wi * SQUARE_SZ * r.dy) by (nonlinear_arith)
                            requires
                                x <= wi,
                                0 < r.dy,
                        ;
                    }
                    let face: i128 = dy * side;
                    let line: i64 = row * SQUARE_SZ;
                    let across: i128 = o.x as i128 * dy + dx * ((line - o.y) as i128);
                    let past: i128 = across % face;
                    let u: i128 = if past == 0 {
                        0
                    } else {
                        face - past
                    };
                    return Some(
                        Hit {
                            x: across,
                            y: line as i128 * dy,
                            u,
                            den: dy,
                            texture: TextureSpec { tx, side: Side::NorthSouth },
                        },
                    );
                },
                Cell::Empty => {},
            }
        }
        match map.wall_at(x, row) {
            Cell::OutOfBounds => {
                return None;
            },
            Cell::Wall(tx) => {
                proof {
                    lemma_west_east(r, x as int, row as int, wi, hi);
                }
                return Some(
                    Hit {
                        x: (x * SQUARE_SZ) as i128 * dx,
                        y,
                        u: y % den,
                        den: dx,
                        texture: TextureSpec { tx, side: Side::WestEast },
                    },
                );
            },
            Cell::Empty => {},
        }
        proof {
            lemma_y_at_bounds(r, x + 1, wi, hi);
            lemma_y_at_next(r, x as int);
            lemma_rows_ordered(r, r.y_at(x as int), r.y_at(x + 1));
        }
        y = y + step_y;
        prev_row = row;
        x = x + 1;
    }
    None
}

impl Hit {
    /// Undoes an exchange of west and east in a world `extent` sub-units
    /// wide: the point is reflected, and the offset is measured from the
    /// other end of the face.
    pub fn mirrored_x(self, extent: i64) -> (r: Hit)
        requires
            0 <= extent <= MAX_EXTENT,
            0 < self.den <= MAX_DIR,
            0 <= self.x <= extent * self.den,
            0 <= self.u < SQUARE_SZ * self.den,
        ensures
            r@ == self@.mirrored_x(extent as int),
            0 <= r.x <= extent * r.den,
            0 <= r.u < SQUARE_SZ * r.den,
    {
        proof {
            lemma_product_bound(extent as int, self.den as int, 268435456, 281474976710656);
            lemma_product_bound(SQUARE_SZ as int, self.den as int, 65536, 281474976710656);
        }
        Hit {
            x: extent as i128 * self.den - self.x,
            y: self.y,
            u: if self.u == 0 {
                0
            } else {
                SQUARE_SZ as i128 * self.den - self.u
            },
            den: self.den,
            texture: self.texture,
        }
    }

    /// Undoes an exchange of north and south in a world `extent` sub-units
    /// high.
    pub fn mirrored_y(self, extent: i64) -> (r: Hit)
        requires
            0 <= extent <= MAX_EXTENT,
            0 < self.den <= MAX_DIR,
            0 <= self.y <= extent * self.den,
            0 <= self.u < SQUARE_SZ * self.den,
        ensures
            r@ == self@.mirrored_y(extent as int),
            0 <= r.y <= extent * r.den,
            0 <= r.u < SQUARE_SZ * r.den,
    {
        proof {
            lemma_product_bound(extent as int, self.den as int, 268435456, 281474976710656);
            lemma_product_bound(SQUARE_SZ as int, self.den as int, 65536, 281474976710656);
        }
        Hit {
            x: self.x,
            y: extent as i128 * self.den - self.y,
            u: if self.u == 0 {
                0
            } else {
                SQUARE_SZ as i128 * self.den - self.u
            },
            den: self.den,
            texture: self.texture,
        }
    }

    /// Undoes an exchange of the two axes: the coordinates change places,
    /// the offset is measured from the other end of the face and the face
    /// orientation flips.
    pub fn transposed(self) -> (r: Hit)
        requires
            0 < self.den <= MAX_DIR,
            0 <= self.u < SQUARE_SZ * self.den,
        ensures
            r@ == self@.transposed(),
            0 <= r.u < SQUARE_SZ * r.den,
    {
        proof {
            lemma_product_bound(SQUARE_SZ as int, self.den as int, 65536, 281474976710656);
        }
        Hit {
            x: self.y,
            y: self.x,
            u: if self.u == 0 {
                0
            } else {
                SQUARE_SZ as i128 * self.den - self.u
            },
            den: self.den,
            texture: self.texture.flipped(),
        }
    }
}

/// Whether the point `o` lies in a passable cell of the grid, as a cast
/// from it requires.
pub fn passable_at(map: &GridMap, o: Point) -> (ok: bool)
    ensures
        ok == (map@.cell(o.x as int / (SQUARE_SZ as int), o.y as int / (SQUARE_SZ as int))
            == Cell::Empty),
{
    if o.x < 0 || o.y < 0 {
        return false;
    }
    map.wall_at(o.x / SQUARE_SZ, o.y / SQUARE_SZ) == Cell::Empty
}

/// Casts a ray that runs east and south: one whose `y` is the larger
/// component is cast against the transposed grid.
pub fn cast_ray_south_east(map: &GridMap, o: Point, dir: Point) -> (hit: Option<Hit>)
    requires
        small_grid(map@),
        0 <= dir.x <= MAX_DIR,
        0 <= dir.y <= MAX_DIR,
        dir.x != 0 || dir.y != 0,
        ray_of(o, dir).starts_within(map@.width as int, map@.height() as int),
    ensures
        strike_of(hit) == ray_of(o, dir).cast_south_east(map@),
        hit is Some ==> hit->0@.within(map@.width as int, map@.height() as int),
{
    if dir.y > dir.x {
        let turned = map.transposed();
        match cast_ray_south_east_east(
            &turned,
            Point { x: o.y, y: o.x },
            Point { x: dir.y, y: dir.x },
        ) {
            Some(h) => Some(h.transposed()),
            None => None,
        }
    } else {
        cast_ray_south_east_east(map, o, dir)
    }
}

/// Casts a ray that runs east: one that runs north is cast against the grid
/// with north and south exchanged.
pub fn cast_ray_east(map: &GridMap, o: Point, dir: Point) -> (hit: Option<Hit>)
    requires
        small_grid(map@),
        0 <= dir.x <= MAX_DIR,
        -MAX_DIR <= dir.y <= MAX_DIR,
        dir.x != 0 || dir.y != 0,
        ray_of(o, dir).starts_within(map@.width as int, map@.height() as int),
    ensures
        strike_of(hit) == ray_of(o, dir).cast_east(map@),
        hit is Some ==> hit->0@.within(map@.width as int, map@.height() as int),
{
    if dir.y < 0 {
        let map_height: i64 = map.height() as i64 * SQUARE_SZ;
        let flipped = map.mirrored_y();
        match cast_ray_south_east(
            &flipped,
            Point { x: o.x, y: map_height - o.y },
            Point { x: dir.x, y: -dir.y },
        ) {
            Some(h) => Some(h.mirrored_y(map_height)),
            None => None,
        }
    } else {
        cast_ray_south_east(map, o, dir)
    }
}

/// Finds the first wall that the ray from `o` along `dir` strikes, or `None`
/// where the ray leaves the grid before striking one. The origin's own cell
/// is never probed: it has to be passable. A ray that runs west is cast
/// against the grid with west and east exchanged.
///
/// The strike lies on a grid line and on the ray, ahead of the origin, on
/// the edge of a wall cell whose texture it carries, and its face offset is
/// at least 0 and less than the length of a cell's edge. No wall lies on
/// the ray before it, nor on the ray of a miss (`path::lemma_path_is_clear`).
/// In a closed room there is a strike wherever the cell in which the ray
/// sets out is passable. Where a ray passes exactly through a grid corner
/// into a wall, it strikes the face that lies across its minor axis, at
/// offset 0.
pub fn cast_ray(map: &GridMap, o: Point, dir: Point) -> (hit: Option<Hit>)
    requires
        small_grid(map@),
        -MAX_DIR <= dir.x <= MAX_DIR,
        -MAX_DIR <= dir.y <= MAX_DIR,
        dir.x != 0 || dir.y != 0,
        map@.cell(o.x as int / (SQUARE_SZ as int), o.y as int / (SQUARE_SZ as int)) == Cell::Empty,
    ensures
        strike_of(hit) == ray_of(o, dir).cast(map@),
        hit is Some ==> hit->0@.within(map@.width as int, map@.height() as int),
        hit is Some ==> hit->0@.on_grid_line(),
        hit is Some ==> ahead_on(hit->0@, ray_of(o, dir)),
        hit is Some ==> faces_wall(hit->0@, map@),
        enclosed(map@) && map@.cell(
            entry_cell(ray_of(o, dir), map@).0,
            entry_cell(ray_of(o, dir), map@).1,
        ) == Cell::Empty ==> hit is Some,
{
    proof {
        lemma_strike_on_grid_line(ray_of(o, dir), map@);
        lemma_strike_on_ray(ray_of(o, dir), map@);
        lemma_strike_faces_wall(ray_of(o, dir), map@);
        if enclosed(map@) && map@.cell(
            entry_cell(ray_of(o, dir), map@).0,
            entry_cell(ray_of(o, dir), map@).1,
        ) == Cell::Empty {
            lemma_closed_room_always_hits(ray_of(o, dir), map@);
        }
    }
    if dir.x < 0 {
        let map_width: i64 = map.width() as i64 * SQUARE_SZ;
        let flipped = map.mirrored_x();
        match cast_ray_east(
            &flipped,
            Point { x: map_width - o.x, y: o.y },
            Point { x: -dir.x, y: dir.y },
        ) {
            Some(h) => Some(h.mirrored_x(map_width)),
            None => None,
        }
    } else {
        cast_ray_east(map, o, dir)
    }
}

} // verus!
