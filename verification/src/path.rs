//! The ray as a set of points: what a cast reports is the first wall on it.

use vstd::prelude::*;
use vstd::arithmetic::div_mod::*;
use crate::consts::SQUARE_SZ;
use crate::grid::{Cell, GridView};
use crate::laws::{
    canonical_grid, canonical_ray, east_grid, east_ray, entry_cell, lemma_canonical_frame,
    lemma_row_steps, lemma_transformed_cells, lemma_transforms_keep_on_ray, on_ray,
    south_east_grid, south_east_ray,
};
use crate::ray::{lemma_origin_row, Ray, Step, Strike};
use crate::textures::Side;

verus! {

/// A point of the plane, `(x / den, y / den)` in sub-units.
pub struct Spot {
    pub x: int,
    pub y: int,
    pub den: int,
}

impl Spot {
    /// The column of the cell in which the point lies.
    pub open spec fn col(self) -> int {
        self.x / (SQUARE_SZ * self.den)
    }

    /// The row of the cell in which the point lies.
    pub open spec fn row(self) -> int {
        self.y / (SQUARE_SZ * self.den)
    }

    /// The point lies inside its cell, on no grid line.
    pub open spec fn off_lines(self) -> bool {
        self.x % (SQUARE_SZ * self.den) != 0 && self.y % (SQUARE_SZ * self.den) != 0
    }

    /// The point `t / den` direction vectors along the ray from its origin.
    pub open spec fn on_ray(self, r: Ray, t: int) -> bool {
        &&& t > 0
        &&& self.den > 0
        &&& self.x - r.ox * self.den == t * r.dx
        &&& self.y - r.oy * self.den == t * r.dy
    }

    /// The point comes before the strike on the ray; before any strike
    /// there is, so that no point is left out where the cast is a miss.
    pub open spec fn before(self, t: int, s: Option<Strike>, r: Ray) -> bool {
        s is Some ==> exists|ts: int| #[trigger] on_ray(s->0, r, ts) && t * s->0.den < ts * self.den
    }

    pub open spec fn mirrored_x(self, extent: int) -> Spot {
        Spot { x: extent * self.den - self.x, y: self.y, den: self.den }
    }

    pub open spec fn mirrored_y(self, extent: int) -> Spot {
        Spot { x: self.x, y: extent * self.den - self.y, den: self.den }
    }

    pub open spec fn transposed(self) -> Spot {
        Spot { x: self.y, y: self.x, den: self.den }
    }
}

proof fn lemma_floor_at_least(a: int, m: int, k: int)
    requires
        0 < m,
        k * m <= a,
    ensures
        k <= a / m,
{
    lemma_div_is_ordered(k * m, a, m);
    lemma_div_multiples_vanish(k, m);
    assert(m * k == k * m) by (nonlinear_arith);
}

proof fn lemma_floor_below(a: int, m: int, k: int)
    requires
        0 < m,
        a < k * m,
    ensures
        a / m < k,
{
    lemma_div_is_ordered(a, k * m - 1, m);
    assert(k * m - 1 == (k - 1) * m + (m - 1)) by (nonlinear_arith);
    lemma_fundamental_div_mod_converse(k * m - 1, m, k - 1, m - 1);
}

/// Where the floor of `a / b` stands to that of `c / d`, by cross
/// multiplication.
proof fn lemma_floor_order(a: int, b: int, c: int, d: int)
    requires
        0 < b,
        0 < d,
        c * b <= a * d,
    ensures
        c / d <= a / b,
{
    let q = c / d;
    lemma_fundamental_div_mod(c, d);
    lemma_mod_bound(c, d);
    assert(q * b <= a) by (nonlinear_arith)
        requires
            c == d * q + c % d,
            0 <= c % d,
            c * b <= a * d,
            0 < b,
            0 < d,
    ;
    lemma_floor_at_least(a, b, q);
}

/// A point's coordinates lie in its cell.
proof fn lemma_spot_cell(p: Spot)
    requires
        0 < p.den,
    ensures
        p.col() * (SQUARE_SZ * p.den) <= p.x < (p.col() + 1) * (SQUARE_SZ * p.den),
        p.row() * (SQUARE_SZ * p.den) <= p.y < (p.row() + 1) * (SQUARE_SZ * p.den),
{
    let m = SQUARE_SZ * p.den;
    lemma_fundamental_div_mod(p.x, m);
    lemma_mod_bound(p.x, m);
    lemma_fundamental_div_mod(p.y, m);
    lemma_mod_bound(p.y, m);
    assert(p.col() * m <= p.x < (p.col() + 1) * m) by (nonlinear_arith)
        requires
            p.x == m * p.col() + p.x % m,
            0 <= p.x % m < m,
    ;
    assert(p.row() * m <= p.y < (p.row() + 1) * m) by (nonlinear_arith)
        requires
            p.y == m * p.row() + p.y % m,
            0 <= p.y % m < m,
    ;
}

/// How far a point of a canonical ray lies south of where the ray crosses
/// the vertical line `x`, by how far it lies east of that line.
proof fn lemma_spot_cross(r: Ray, p: Spot, t: int, x: int)
    requires
        p.on_ray(r, t),
    ensures
        p.y * (r.dx * SQUARE_SZ) - r.y_at(x) * (SQUARE_SZ * p.den) == SQUARE_SZ * (r.dy * (p.x - x
            * (SQUARE_SZ * p.den))),
{
    let m = SQUARE_SZ * p.den;
    let d = r.dx * SQUARE_SZ;
    let y = r.y_at(x);
    let east = p.x - x * m;
    let reach = x * SQUARE_SZ - r.ox;
    assert(t * r.dx - reach * p.den == east) by (nonlinear_arith)
        requires
            p.x - r.ox * p.den == t * r.dx,
            reach == x * SQUARE_SZ - r.ox,
            east == p.x - x * m,
            m == SQUARE_SZ * p.den,
    ;
    assert(p.y * r.dx == r.oy * r.dx * p.den + r.dy * (t * r.dx)) by (nonlinear_arith)
        requires
            p.y == r.oy * p.den + t * r.dy,
    ;
    assert(y * p.den == r.oy * r.dx * p.den + r.dy * (reach * p.den)) by (nonlinear_arith)
        requires
            y == r.oy * r.dx + r.dy * reach,
    ;
    assert(p.y * r.dx - y * p.den == r.dy * east) by (nonlinear_arith)
        requires
            p.y * r.dx == r.oy * r.dx * p.den + r.dy * (t * r.dx),
            y * p.den == r.oy * r.dx * p.den + r.dy * (reach * p.den),
            t * r.dx - reach * p.den == east,
    ;
    assert(p.y * d - y * m == SQUARE_SZ * (r.dy * east)) by (nonlinear_arith)
        requires
            p.y * r.dx - y * p.den == r.dy * east,
            m == SQUARE_SZ * p.den,
            d == r.dx * SQUARE_SZ,
    ;
}

/// A point of a canonical ray east of the vertical line `x` lies in the
/// row in which the ray crosses that line or south of it, and a point west
/// of the line in that row or north of it.
proof fn lemma_spot_rows(r: Ray, p: Spot, t: int, x: int)
    requires
        r.canonical(),
        p.on_ray(r, t),
    ensures
        x * (SQUARE_SZ * p.den) <= p.x ==> r.row_at(x) <= p.row(),
        p.x <= x * (SQUARE_SZ * p.den) ==> p.row() <= r.row_at(x),
{
    let m = SQUARE_SZ * p.den;
    let d = r.dx * SQUARE_SZ;
    let y = r.y_at(x);
    let east = p.x - x * m;
    assert(0 < m && 0 < d) by (nonlinear_arith)
        requires
            m == SQUARE_SZ * p.den,
            d == r.dx * SQUARE_SZ,
            0 < p.den,
            0 < r.dx,
    ;
    lemma_spot_cross(r, p, t, x);
    if x * m <= p.x {
        assert(0 <= SQUARE_SZ * (r.dy * east)) by (nonlinear_arith)
            requires
                0 <= r.dy,
                0 <= east,
        ;
        lemma_floor_order(p.y, m, y, d);
    }
    if p.x <= x * m {
        assert(SQUARE_SZ * (r.dy * east) <= 0) by (nonlinear_arith)
            requires
                0 <= r.dy,
                east <= 0,
        ;
        lemma_floor_order(y, d, p.y, m);
    }
}

/// A point of a canonical ray lies in the origin's row or south of it.
proof fn lemma_spot_origin_row(r: Ray, p: Spot, t: int)
    requires
        r.canonical(),
        0 <= r.oy,
        p.on_ray(r, t),
    ensures
        r.oy / (SQUARE_SZ as int) <= p.row(),
{
    let m = SQUARE_SZ * p.den;
    assert(0 < m && r.oy * m <= p.y * SQUARE_SZ) by (nonlinear_arith)
        requires
            m == SQUARE_SZ * p.den,
            0 < p.den,
            p.y - r.oy * p.den == t * r.dy,
            0 < t,
            0 <= r.dy,
    ;
    lemma_floor_order(p.y, m, r.oy, SQUARE_SZ as int);
}

/// A point before the strike made at the vertical line `x` lies west of
/// that line, and north of the struck face where that is a north face.
proof fn lemma_before_step(r: Ray, g: GridView, x: int, p: Spot, t: int)
    requires
        r.canonical(),
        0 <= r.oy,
        r.first_line() <= x,
        r.oy / (SQUARE_SZ as int) <= r.row_before(x),
        p.on_ray(r, t),
        r.step(g, x) is Stop,
        r.step(g, x)->Stop_0 is Some,
        p.before(t, r.step(g, x)->Stop_0, r),
    ensures
        p.col() < x,
        (r.step(g, x)->Stop_0)->0.texture.side == Side::NorthSouth ==> p.row() < r.row_at(x),
{
    let s = (r.step(g, x)->Stop_0)->0;
    let ts = choose|ts: int| #[trigger] on_ray(s, r, ts) && t * s.den < ts * p.den;
    let m = SQUARE_SZ * p.den;
    let row = r.row_at(x);
    lemma_row_steps(r, x);
    assert(0 < m) by (nonlinear_arith)
        requires
            m == SQUARE_SZ * p.den,
            0 < p.den,
    ;
    if s.texture.side == Side::NorthSouth {
        if r.dy == 0 {
            assert(r.y_at(x) == r.oy * r.dx) by (nonlinear_arith)
                requires
                    r.y_at(x) == r.oy * r.dx + r.dy * (x * SQUARE_SZ - r.ox),
                    r.dy == 0,
            ;
            lemma_origin_row(r);
        }
        assert(p.y < row * m) by (nonlinear_arith)
            requires
                s.y == row * SQUARE_SZ * r.dy,
                s.den == r.dy,
                0 < r.dy,
                s.y - r.oy * s.den == ts * r.dy,
                t * s.den < ts * p.den,
                p.y - r.oy * p.den == t * r.dy,
                m == SQUARE_SZ * p.den,
        ;
        lemma_floor_below(p.y, m, row);
        lemma_spot_rows(r, p, t, x);
        if x * m <= p.x {
            assert(false);
        }
        lemma_floor_below(p.x, m, x);
    } else {
        assert(p.x < x * m) by (nonlinear_arith)
            requires
                s.x == x * SQUARE_SZ * r.dx,
                s.den == r.dx,
                0 < r.dx,
                s.x - r.ox * s.den == ts * r.dx,
                t * s.den < ts * p.den,
                p.x - r.ox * p.den == t * r.dx,
                m == SQUARE_SZ * p.den,
        ;
        lemma_floor_below(p.x, m, x);
    }
}

/// On a canonical walk that has reached the vertical line `x` through
/// cells that are no walls, a point of the ray in the column west of the
/// line or east of it, and before the strike, lies in a cell that is no
/// wall.
proof fn lemma_scan_path(r: Ray, g: GridView, x: int, p: Spot, t: int)
    requires
        r.canonical(),
        0 <= r.ox,
        0 <= r.oy,
        r.first_line() <= x,
        r.oy / (SQUARE_SZ as int) <= r.row_before(x),
        p.on_ray(r, t),
        x - 1 <= p.col(),
        !(g.cell(x - 1, r.row_before(x)) is Wall),
        p.before(t, r.scan(g, x), r),
    ensures
        !(g.cell(p.col(), p.row()) is Wall),
    decreases g.width + 1 - x,
{
    let m = SQUARE_SZ * p.den;
    let row = r.row_at(x);
    let rb = r.row_before(x);
    lemma_row_steps(r, x);
    lemma_spot_cell(p);
    if x <= g.width {
        lemma_spot_rows(r, p, t, x);
        if r.step(g, x) is Stop && r.step(g, x)->Stop_0 is Some {
            lemma_before_step(r, g, x, p, t);
        }
        if p.col() == x - 1 {
            if x == r.first_line() {
                lemma_spot_origin_row(r, p, t);
            } else {
                lemma_spot_rows(r, p, t, x - 1);
                assert((x - 1) * m <= p.x);
            }
            assert(p.x <= x * m) by (nonlinear_arith)
                requires
                    p.x < (p.col() + 1) * m,
                    p.col() == x - 1,
            ;
            assert(rb <= p.row() <= row);
        } else {
            assert(x * m <= p.x) by (nonlinear_arith)
                requires
                    p.col() * m <= p.x,
                    x <= p.col(),
                    0 <= m,
            ;
            assert(row <= p.row());
            match r.step(g, x) {
                Step::Pass => {
                    lemma_row_steps(r, x + 1);
                    lemma_scan_path(r, g, x + 1, p, t);
                },
                Step::Stop(s) => {
                    assert(s is None);
                    assert(0 <= x - 1 < g.width);
                    assert(0 <= rb);
                    assert(!g.in_bounds(p.col(), p.row()));
                },
            }
        }
    } else {
        assert(!g.in_bounds(p.col(), p.row()));
    }
}

/// Where a number stands after a reflection in a world of `cells` cells:
/// in the mirrored cell, and off the grid lines as before.
proof fn lemma_mirrored_coordinate(a: int, den: int, cells: int)
    requires
        0 < den,
        a % (SQUARE_SZ * den) != 0,
    ensures
        (cells * SQUARE_SZ * den - a) / (SQUARE_SZ * den) == cells - 1 - a / (SQUARE_SZ * den),
        (cells * SQUARE_SZ * den - a) % (SQUARE_SZ * den) != 0,
{
    let m = SQUARE_SZ * den;
    let q = a / m;
    let rem = a % m;
    assert(0 < m) by (nonlinear_arith)
        requires
            m == SQUARE_SZ * den,
            0 < den,
    ;
    lemma_fundamental_div_mod(a, m);
    lemma_mod_bound(a, m);
    assert(cells * SQUARE_SZ * den - a == (cells - 1 - q) * m + (m - rem)) by (nonlinear_arith)
        requires
            a == m * q + rem,
            m == SQUARE_SZ * den,
    ;
    lemma_fundamental_div_mod_converse(cells * SQUARE_SZ * den - a, m, cells - 1 - q, m - rem);
}

/// A point of a ray, reflected or with its axes exchanged, is a point of
/// the ray so treated, and lies in the cell so treated.
proof fn lemma_spot_transforms(p: Spot, r: Ray, t: int, cells: int)
    requires
        p.on_ray(r, t),
        p.off_lines(),
    ensures
        p.transposed().on_ray(r.transposed(), t),
        p.transposed().off_lines(),
        p.transposed().col() == p.row(),
        p.transposed().row() == p.col(),
        p.mirrored_x(cells * SQUARE_SZ).on_ray(r.mirrored_x(cells * SQUARE_SZ), t),
        p.mirrored_x(cells * SQUARE_SZ).off_lines(),
        p.mirrored_x(cells * SQUARE_SZ).col() == cells - 1 - p.col(),
        p.mirrored_x(cells * SQUARE_SZ).row() == p.row(),
        p.mirrored_y(cells * SQUARE_SZ).on_ray(r.mirrored_y(cells * SQUARE_SZ), t),
        p.mirrored_y(cells * SQUARE_SZ).off_lines(),
        p.mirrored_y(cells * SQUARE_SZ).col() == p.col(),
        p.mirrored_y(cells * SQUARE_SZ).row() == cells - 1 - p.row(),
{
    let extent = cells * SQUARE_SZ;
    lemma_mirrored_coordinate(p.x, p.den, cells);
    lemma_mirrored_coordinate(p.y, p.den, cells);
    assert((extent * p.den - p.x) - (extent - r.ox) * p.den == t * (-r.dx)) by (nonlinear_arith)
        requires
            p.x - r.ox * p.den == t * r.dx,
    ;
    assert((extent * p.den - p.y) - (extent - r.oy) * p.den == t * (-r.dy)) by (nonlinear_arith)
        requires
            p.y - r.oy * p.den == t * r.dy,
    ;
    assert(extent * p.den == cells * SQUARE_SZ * p.den);
}

/// Between its origin and what it strikes, a ray crosses no wall. Take a
/// ray that sets out in a cell that is no wall, and any point of it that
/// lies inside a cell, on no grid line, and before the strike; where the
/// cast is a miss, any such point of the ray at all. That point's cell is
/// no wall. So a strike is the first wall on the ray, and after a miss
/// there is no wall on it.
#[verifier::rlimit(40)]
pub proof fn lemma_path_is_clear(r: Ray, g: GridView, p: Spot, t: int)
    requires
        r.dx != 0 || r.dy != 0,
        0 <= r.ox <= g.width * SQUARE_SZ,
        0 <= r.oy <= g.height() * SQUARE_SZ,
        !(g.cell(entry_cell(r, g).0, entry_cell(r, g).1) is Wall),
        p.on_ray(r, t),
        p.off_lines(),
        p.before(t, r.cast(g), r),
    ensures
        !(g.cell(p.col(), p.row()) is Wall),
{
    let r1 = east_ray(r, g);
    let g1 = east_grid(r, g);
    let r2 = south_east_ray(r, g);
    let g2 = south_east_grid(r, g);
    let r3 = canonical_ray(r, g);
    let g3 = canonical_grid(r, g);
    let ex = g.width * SQUARE_SZ;
    let ey = g.height() * SQUARE_SZ;
    let p1 = if r.dx < 0 {
        p.mirrored_x(ex)
    } else {
        p
    };
    let p2 = if r1.dy < 0 {
        p1.mirrored_y(ey)
    } else {
        p1
    };
    let p3 = if r2.dy > r2.dx {
        p2.transposed()
    } else {
        p2
    };
    lemma_canonical_frame(r, g);
    lemma_spot_transforms(p, r, t, g.width as int);
    lemma_spot_transforms(p1, r1, t, g.height() as int);
    lemma_spot_transforms(p2, r2, t, 0);
    assert(p3.on_ray(r3, t) && p3.off_lines());
    // The point's cell is the same cell of the grid in every frame.
    lemma_transformed_cells(g, p1.col(), p1.row());
    lemma_transformed_cells(g1, p2.col(), p2.row());
    lemma_transformed_cells(g2, p3.col(), p3.row());
    assert(g1.cell(p1.col(), p1.row()) == g.cell(p.col(), p.row()));
    assert(g2.cell(p2.col(), p2.row()) == g.cell(p.col(), p.row()));
    assert(g3.cell(p3.col(), p3.row()) == g.cell(p.col(), p.row()));
    // The point comes before the strike in every frame.
    let s3 = r3.cast_south_east_east(g3);
    if s3 is Some {
        let s = r.cast(g)->0;
        let ts = choose|ts: int| #[trigger] on_ray(s, r, ts) && t * s.den < ts * p.den;
        let s1 = r1.cast_east(g1)->0;
        let s2 = r2.cast_south_east(g2)->0;
        lemma_transforms_keep_on_ray(s, r, ts, ex);
        assert(on_ray(s1, r1, ts));
        lemma_transforms_keep_on_ray(s1, r1, ts, ey);
        assert(on_ray(s2, r2, ts));
        lemma_transforms_keep_on_ray(s2, r2, ts, 0);
        assert(on_ray(s3->0, r3, ts));
        assert(s3->0.den == s.den && p3.den == p.den);
        assert(on_ray(s3->0, r3, ts) && t * s3->0.den < ts * p3.den);
    }
    assert(p3.before(t, s3, r3));
    // The walk starts in the column of the origin.
    let first = r3.first_line();
    assert(0 <= r3.ox && 0 <= r3.oy);
    assert(r3.ox * (SQUARE_SZ * p3.den) <= p3.x * SQUARE_SZ && 0 < SQUARE_SZ * p3.den)
        by (nonlinear_arith)
        requires
            p3.x - r3.ox * p3.den == t * r3.dx,
            0 < t,
            0 < r3.dx,
            0 < p3.den,
    ;
    lemma_floor_order(p3.x, SQUARE_SZ * p3.den, r3.ox, SQUARE_SZ as int);
    lemma_scan_path(r3, g3, first, p3, t);
}

/// The strike lies on the edge of, or in, the cell in column `c` of row
/// `j`.
pub open spec fn touches(s: Strike, c: int, j: int) -> bool {
    &&& c * (SQUARE_SZ * s.den) <= s.x <= (c + 1) * (SQUARE_SZ * s.den)
    &&& j * (SQUARE_SZ * s.den) <= s.y <= (j + 1) * (SQUARE_SZ * s.den)
}

/// The strike lies on a wall of the grid that has the strike's texture.
pub open spec fn faces_wall(s: Strike, g: GridView) -> bool {
    exists|c: int, j: int| #[trigger] touches(s, c, j) && g.cell(c, j) == Cell::Wall(s.texture.tx)
}

pub(crate) proof fn lemma_scan_faces_wall(r: Ray, g: GridView, x: int)
    requires
        r.canonical(),
        0 <= r.ox,
        0 <= r.oy,
        r.first_line() <= x,
        r.oy / (SQUARE_SZ as int) <= r.row_before(x),
    ensures
        r.scan(g, x) is Some ==> faces_wall(r.scan(g, x)->0, g),
    decreases g.width + 1 - x,
{
    if x <= g.width {
        let row = r.row_at(x);
        let d = r.dx * SQUARE_SZ;
        lemma_row_steps(r, x);
        lemma_fundamental_div_mod(r.y_at(x), d);
        lemma_mod_bound(r.y_at(x), d);
        match r.step(g, x) {
            Step::Pass => {
                lemma_row_steps(r, x + 1);
                lemma_scan_faces_wall(r, g, x + 1);
            },
            Step::Stop(hit) => {
                if hit is Some {
                    let s = hit->0;
                    let m = SQUARE_SZ * s.den;
                    if s.texture.side == Side::NorthSouth {
                        if r.dy == 0 {
                            assert(r.y_at(x) == r.oy * r.dx) by (nonlinear_arith)
                                requires
                                    r.y_at(x) == r.oy * r.dx + r.dy * (x * SQUARE_SZ - r.ox),
                                    r.dy == 0,
                            ;
                            lemma_origin_row(r);
                        }
                        let t = row * SQUARE_SZ - r.oy;
                        let p = Spot { x: s.x, y: s.y, den: s.den };
                        assert(p.on_ray(r, t)) by (nonlinear_arith)
                            requires
                                p.x == r.ox * r.dy + r.dx * (row * SQUARE_SZ - r.oy),
                                p.y == row * SQUARE_SZ * r.dy,
                                p.den == r.dy,
                                0 < r.dy,
                                t == row * SQUARE_SZ - r.oy,
                                0 < t,
                        ;
                        lemma_spot_cross(r, p, t, x);
                        assert(p.x <= x * m && p.y == row * m) by (nonlinear_arith)
                            requires
                                p.y * d - r.y_at(x) * m == SQUARE_SZ * (r.dy * (p.x - x * m)),
                                p.y == row * SQUARE_SZ * r.dy,
                                m == SQUARE_SZ * r.dy,
                                0 < r.dy,
                                d * row <= r.y_at(x),
                                0 < d,
                        ;
                        if x == r.first_line() {
                            assert((x - 1) * m <= p.x) by (nonlinear_arith)
                                requires
                                    p.x - r.ox * r.dy == t * r.dx,
                                    0 < t,
                                    0 < r.dx,
                                    0 < r.dy,
                                    (x - 1) * SQUARE_SZ <= r.ox,
                                    m == SQUARE_SZ * r.dy,
                            ;
                        } else {
                            let before = r.y_at(x - 1);
                            lemma_fundamental_div_mod(before, d);
                            lemma_mod_bound(before, d);
                            lemma_spot_cross(r, p, t, x - 1);
                            assert((x - 1) * m <= p.x) by (nonlinear_arith)
                                requires
                                    p.y * d - before * m == SQUARE_SZ * (r.dy * (p.x - (x - 1)
                                        * m)),
                                    p.y == row * SQUARE_SZ * r.dy,
                                    m == SQUARE_SZ * r.dy,
                                    0 < r.dy,
                                    before == d * r.row_at(x - 1) + before % d,
                                    before % d < d,
                                    r.row_at(x - 1) < row,
                                    0 < d,
                            ;
                        }
                        assert(x * m == (x - 1 + 1) * m && p.y <= (row + 1) * m)
                            by (nonlinear_arith)
                            requires
                                p.y == row * m,
                                0 < m,
                        ;
                        assert(touches(s, x - 1, row));
                    } else {
                        assert(s.x == x * m && s.x <= (x + 1) * m && row * m <= s.y <= (row + 1)
                            * m) by (nonlinear_arith)
                            requires
                                s.x == x * SQUARE_SZ * r.dx,
                                m == SQUARE_SZ * r.dx,
                                d == r.dx * SQUARE_SZ,
                                0 < r.dx,
                                s.y == d * row + s.y % d,
                                0 <= s.y % d < d,
                        ;
                        assert(touches(s, x, row));
                    }
                }
            },
        }
    }
}

/// A strike that touches a cell touches, once reflected or with its axes
/// exchanged, the cell so treated.
proof fn lemma_touches_transformed(s: Strike, c: int, j: int, cells: int)
    requires
        touches(s, c, j),
    ensures
        touches(s.transposed(), j, c),
        touches(s.mirrored_x(cells * SQUARE_SZ), cells - 1 - c, j),
        touches(s.mirrored_y(cells * SQUARE_SZ), c, cells - 1 - j),
{
    let m = SQUARE_SZ * s.den;
    let e = cells * SQUARE_SZ * s.den;
    assert((cells - 1 - c) * m == e - (c + 1) * m && (cells - 1 - c + 1) * m == e - c * m && (cells
        - 1 - j) * m == e - (j + 1) * m && (cells - 1 - j + 1) * m == e - j * m)
        by (nonlinear_arith)
        requires
            m == SQUARE_SZ * s.den,
            e == cells * SQUARE_SZ * s.den,
    ;
}

/// What a cast strikes is a wall: the strike lies on the edge of a wall
/// cell of the grid, and carries that wall's texture. With
/// `lemma_path_is_clear` this makes the strike the first wall on the ray.
pub proof fn lemma_strike_faces_wall(r: Ray, g: GridView)
    requires
        r.dx != 0 || r.dy != 0,
        0 <= r.ox <= g.width * SQUARE_SZ,
        0 <= r.oy <= g.height() * SQUARE_SZ,
    ensures
        r.cast(g) is Some ==> faces_wall(r.cast(g)->0, g),
{
    let r1 = east_ray(r, g);
    let g1 = east_grid(r, g);
    let r2 = south_east_ray(r, g);
    let g2 = south_east_grid(r, g);
    let r3 = canonical_ray(r, g);
    let g3 = canonical_grid(r, g);
    lemma_scan_faces_wall(r3, g3, r3.first_line());
    let s3 = r3.cast_south_east_east(g3);
    if s3 is Some {
        let (c3, j3) = choose|c: int, j: int| #[trigger]
            touches(s3->0, c, j) && g3.cell(c, j) == Cell::Wall(s3->0.texture.tx);
        let s2 = r2.cast_south_east(g2)->0;
        let c2 = if r2.dy > r2.dx {
            j3
        } else {
            c3
        };
        let j2 = if r2.dy > r2.dx {
            c3
        } else {
            j3
        };
        lemma_touches_transformed(s3->0, c3, j3, 0);
        lemma_transformed_cells(g2, c3, j3);
        assert(touches(s2, c2, j2) && g2.cell(c2, j2) == Cell::Wall(s2.texture.tx));
        let s1 = r1.cast_east(g1)->0;
        let j1 = if r1.dy < 0 {
            g.height() - 1 - j2
        } else {
            j2
        };
        lemma_touches_transformed(s2, c2, j2, g.height() as int);
        lemma_transformed_cells(g1, c2, j2);
        assert(touches(s1, c2, j1) && g1.cell(c2, j1) == Cell::Wall(s1.texture.tx));
        let s = r.cast(g)->0;
        let c = if r.dx < 0 {
            g.width - 1 - c2
        } else {
            c2
        };
        lemma_touches_transformed(s1, c2, j1, g.width as int);
        lemma_transformed_cells(g, c2, j1);
        assert(touches(s, c, j1) && g.cell(c, j1) == Cell::Wall(s.texture.tx));
    }
}

} // verus!
