use vstd::prelude::*;
use vstd::arithmetic::div_mod::*;
use crate::consts::SQUARE_SZ;
use crate::grid::{Cell, GridView};
use crate::projector::{
    camera_dir, column_ray, depth, lemma_column_dir_forward, reach, span_bottom, span_top,
    visible, PLANE_DISTANCE, PLANE_WIDTH,
};
use crate::ray::{
    grid_line, lemma_origin_row, lemma_y_at_next, mirror_x_of, mirror_y_of, Point, Ray, Step,
    Strike,
};
use crate::textures::Side;

verus! {

/// The ray as the traversal sees it once it runs east.
pub open spec fn east_ray(r: Ray, g: GridView) -> Ray {
    if r.dx < 0 {
        r.mirrored_x(g.width * SQUARE_SZ)
    } else {
        r
    }
}

/// The grid as the traversal sees it once the ray runs east.
pub open spec fn east_grid(r: Ray, g: GridView) -> GridView {
    if r.dx < 0 {
        g.mirrored_x()
    } else {
        g
    }
}

/// The ray as the traversal sees it once it runs east and south.
pub open spec fn south_east_ray(r: Ray, g: GridView) -> Ray {
    if east_ray(r, g).dy < 0 {
        east_ray(r, g).mirrored_y(g.height() * SQUARE_SZ)
    } else {
        east_ray(r, g)
    }
}

/// The grid as the traversal sees it once the ray runs east and south.
pub open spec fn south_east_grid(r: Ray, g: GridView) -> GridView {
    if east_ray(r, g).dy < 0 {
        east_grid(r, g).mirrored_y()
    } else {
        east_grid(r, g)
    }
}

/// The ray in the frame in which it is walked: running east, and south no
/// faster than east.
pub open spec fn canonical_ray(r: Ray, g: GridView) -> Ray {
    if south_east_ray(r, g).dy > south_east_ray(r, g).dx {
        south_east_ray(r, g).transposed()
    } else {
        south_east_ray(r, g)
    }
}

/// The grid in the frame in which the ray is walked.
pub open spec fn canonical_grid(r: Ray, g: GridView) -> GridView {
    if south_east_ray(r, g).dy > south_east_ray(r, g).dx {
        south_east_grid(r, g).transposed()
    } else {
        south_east_grid(r, g)
    }
}

pub(crate) proof fn lemma_scan_on_grid_line(r: Ray, g: GridView, x: int)
    ensures
        r.scan(g, x) is Some ==> r.scan(g, x)->0.on_grid_line(),
    decreases g.width + 1 - x,
{
    if x <= g.width {
        match r.step(g, x) {
            Step::Pass => {
                lemma_scan_on_grid_line(r, g, x + 1);
            },
            Step::Stop(s) => {
                if s is Some {
                    let s = s->0;
                    let row = r.row_at(x);
                    if s.texture.side == Side::NorthSouth {
                        assert(s.y == grid_line(row, s.den));
                    } else {
                        assert(s.x == grid_line(x, s.den));
                    }
                }
            },
        }
    }
}

proof fn lemma_transposed_on_grid_line(s: Strike)
    requires
        s.on_grid_line(),
    ensures
        s.transposed().on_grid_line(),
{
    let t = s.transposed();
    match s.texture.side {
        Side::WestEast => {
            let k = choose|k: int| s.x == #[trigger] grid_line(k, s.den);
            assert(t.y == grid_line(k, t.den));
        },
        Side::NorthSouth => {
            let k = choose|k: int| s.y == #[trigger] grid_line(k, s.den);
            assert(t.x == grid_line(k, t.den));
        },
    }
}

proof fn lemma_mirrored_on_grid_line(s: Strike, cells: int)
    requires
        s.on_grid_line(),
    ensures
        s.mirrored_x(cells * SQUARE_SZ).on_grid_line(),
        s.mirrored_y(cells * SQUARE_SZ).on_grid_line(),
{
    let mx = s.mirrored_x(cells * SQUARE_SZ);
    let my = s.mirrored_y(cells * SQUARE_SZ);
    match s.texture.side {
        Side::WestEast => {
            let k = choose|k: int| s.x == #[trigger] grid_line(k, s.den);
            assert(mx.x == grid_line(cells - k, s.den)) by (nonlinear_arith)
                requires
                    mx.x == cells * SQUARE_SZ * s.den - s.x,
                    s.x == grid_line(k, s.den),
            ;
            assert(mx.x == grid_line(cells - k, mx.den));
            assert(my.x == grid_line(k, my.den));
        },
        Side::NorthSouth => {
            let k = choose|k: int| s.y == #[trigger] grid_line(k, s.den);
            assert(my.y == grid_line(cells - k, s.den)) by (nonlinear_arith)
                requires
                    my.y == cells * SQUARE_SZ * s.den - s.y,
                    s.y == grid_line(k, s.den),
            ;
            assert(my.y == grid_line(cells - k, my.den));
            assert(mx.y == grid_line(k, mx.den));
        },
    }
}

/// Every strike lies on a grid line: where a west or east face was struck,
/// the strike's `x` is a whole number of cells, and where a north or south
/// face was struck, its `y` is. This holds of every grid and every ray.
pub proof fn lemma_strike_on_grid_line(r: Ray, g: GridView)
    ensures
        r.cast(g) is Some ==> r.cast(g)->0.on_grid_line(),
{
    let r1 = east_ray(r, g);
    let g1 = east_grid(r, g);
    let r2 = south_east_ray(r, g);
    let g2 = south_east_grid(r, g);
    let r3 = canonical_ray(r, g);
    let g3 = canonical_grid(r, g);
    lemma_scan_on_grid_line(r3, g3, r3.first_line());
    let s3 = r3.cast_south_east_east(g3);
    if s3 is Some {
        if r2.dy > r2.dx {
            lemma_transposed_on_grid_line(s3->0);
        }
        let s2 = r2.cast_south_east(g2);
        assert(s2 is Some && s2->0.on_grid_line());
        if r1.dy < 0 {
            lemma_mirrored_on_grid_line(s2->0, g1.height() as int);
        }
        let s1 = r1.cast_east(g1);
        assert(s1 is Some && s1->0.on_grid_line());
        if r.dx < 0 {
            lemma_mirrored_on_grid_line(s1->0, g.width as int);
        }
    }
}

/// Exchanging west and east twice gives the grid back.
pub proof fn lemma_mirror_x_twice(g: GridView)
    requires
        g.wf(),
    ensures
        g.mirrored_x().mirrored_x() == g,
        g.mirrored_x().wf(),
{
    let m = g.mirrored_x().mirrored_x();
    assert(m.rows =~= g.rows) by {
        assert forall|r: int| 0 <= r < g.rows.len() implies #[trigger] m.rows[r] =~= g.rows[r] by {
            assert(g.rows[r].len() == g.width);
        }
    }
}

proof fn lemma_scan_offset(r: Ray, g: GridView, x: int)
    requires
        r.canonical(),
        0 <= r.oy,
        r.first_line() <= x,
        r.oy / (SQUARE_SZ as int) <= r.row_before(x),
    ensures
        r.scan(g, x) is Some ==> r.scan(g, x)->0.offset_ok(),
    decreases g.width + 1 - x,
{
    if x <= g.width {
        let row = r.row_at(x);
        lemma_row_steps(r, x);
        match r.step(g, x) {
            Step::Pass => {
                lemma_scan_offset(r, g, x + 1);
            },
            Step::Stop(s) => {
                if s is Some {
                    if s->0.texture.side == Side::NorthSouth {
                        if r.dy == 0 {
                            assert(r.y_at(x) == r.oy * r.dx) by (nonlinear_arith)
                                requires
                                    r.y_at(x) == r.oy * r.dx + r.dy * (x * SQUARE_SZ - r.ox),
                                    r.dy == 0,
                            ;
                            lemma_origin_row(r);
                        }
                        lemma_mod_bound(r.x_at(row), r.dy * SQUARE_SZ);
                    } else {
                        lemma_mod_bound(r.y_at(x), r.dx * SQUARE_SZ);
                    }
                }
            },
        }
    }
}

/// The face offset of a strike is at least 0 and less than the length of a
/// cell's edge.
pub proof fn lemma_offset_on_face(r: Ray, g: GridView)
    requires
        r.dx != 0 || r.dy != 0,
        0 <= r.ox <= g.width * SQUARE_SZ,
        0 <= r.oy <= g.height() * SQUARE_SZ,
    ensures
        r.cast(g) is Some ==> r.cast(g)->0.offset_ok(),
{
    let r1 = east_ray(r, g);
    let g1 = east_grid(r, g);
    let r2 = south_east_ray(r, g);
    let g2 = south_east_grid(r, g);
    let r3 = canonical_ray(r, g);
    let g3 = canonical_grid(r, g);
    lemma_scan_offset(r3, g3, r3.first_line());
    let s3 = r3.cast_south_east_east(g3);
    if s3 is Some {
        let s2 = r2.cast_south_east(g2);
        assert(s2 is Some && s2->0.offset_ok());
        let s1 = r1.cast_east(g1);
        assert(s1 is Some && s1->0.offset_ok());
    }
}

/// Exchanging the axes turns a mirror of the columns into one of the rows.
proof fn lemma_mirror_then_transpose(g: GridView)
    ensures
        g.mirrored_x().transposed() == g.transposed().mirrored_y(),
        g.mirrored_y().mirrored_x() == g.mirrored_x().mirrored_y(),
{
    let a = g.mirrored_x().transposed();
    let b = g.transposed().mirrored_y();
    assert(a.rows =~= b.rows) by {
        assert forall|r: int| 0 <= r < a.rows.len() implies #[trigger] a.rows[r] =~= b.rows[r] by {
        }
    }
    let c = g.mirrored_y().mirrored_x();
    let d = g.mirrored_x().mirrored_y();
    assert(c.rows =~= d.rows) by {
        assert forall|r: int| 0 <= r < c.rows.len() implies #[trigger] c.rows[r] =~= d.rows[r] by {
        }
    }
}

/// A canonical ray that runs due east, not along a grid line, strikes in
/// the grid with north and south exchanged the mirror image of what it
/// strikes in the grid itself.
proof fn lemma_scan_level(r: Ray, g: GridView, x: int)
    requires
        r.canonical(),
        r.dy == 0,
        0 <= r.oy <= g.height() * SQUARE_SZ,
        r.oy % (SQUARE_SZ as int) != 0,
    ensures
        r.mirrored_y(g.height() * SQUARE_SZ).scan(g.mirrored_y(), x) == mirror_y_of(
            r.scan(g, x),
            g.height() * SQUARE_SZ,
        ),
    decreases g.width + 1 - x,
{
    let extent = g.height() * SQUARE_SZ;
    let rm = r.mirrored_y(extent);
    let gm = g.mirrored_y();
    let s = SQUARE_SZ as int;
    if x <= g.width {
        lemma_origin_row(r);
        lemma_origin_row(rm);
        assert(r.y_at(x) == r.oy * r.dx && r.y_at(x - 1) == r.oy * r.dx) by (nonlinear_arith)
            requires
                r.y_at(x) == r.oy * r.dx + r.dy * (x * SQUARE_SZ - r.ox),
                r.y_at(x - 1) == r.oy * r.dx + r.dy * ((x - 1) * SQUARE_SZ - r.ox),
                r.dy == 0,
        ;
        assert(rm.y_at(x) == rm.oy * r.dx && rm.y_at(x - 1) == rm.oy * r.dx) by (nonlinear_arith)
            requires
                rm.y_at(x) == rm.oy * r.dx + rm.dy * (x * SQUARE_SZ - r.ox),
                rm.y_at(x - 1) == rm.oy * r.dx + rm.dy * ((x - 1) * SQUARE_SZ - r.ox),
                rm.dy == 0,
        ;
        let row = r.oy / s;
        assert(r.row_at(x) == row && r.row_before(x) == row);
        assert(rm.row_at(x) == g.height() - 1 - row && rm.row_before(x) == rm.row_at(x));
        lemma_transformed_cells(g, x, rm.row_at(x));
        match r.step(g, x) {
            Step::Pass => {
                lemma_scan_level(r, g, x + 1);
            },
            Step::Stop(hit) => {
                if hit is Some {
                    let p = hit->0;
                    let q = (rm.step(gm, x)->Stop_0)->0;
                    lemma_truncate_middle(r.oy, r.dx, s);
                    lemma_truncate_middle(rm.oy, r.dx, s);
                    assert(r.oy * r.dx == r.dx * r.oy && rm.oy * r.dx == r.dx * rm.oy
                        && r.dx * SQUARE_SZ == SQUARE_SZ * r.dx) by (nonlinear_arith);
                    assert(rm.oy % s == s - r.oy % s);
                    assert(q.u == SQUARE_SZ * r.dx - p.u && p.u != 0) by (nonlinear_arith)
                        requires
                            p.u == r.dx * (r.oy % s),
                            q.u == r.dx * (rm.oy % s),
                            rm.oy % s == s - r.oy % s,
                            0 < r.oy % s,
                            0 < r.dx,
                            s == SQUARE_SZ,
                    ;
                    assert(q.y == extent * r.dx - p.y) by (nonlinear_arith)
                        requires
                            p.y == r.oy * r.dx,
                            q.y == rm.oy * r.dx,
                            rm.oy == extent - r.oy,
                    ;
                    assert(q == p.mirrored_y(extent));
                }
            },
        }
    }
}

/// Mirror symmetry for a ray without an eastward or westward component.
proof fn lemma_mirror_symmetry_level(r: Ray, g: GridView)
    requires
        g.wf(),
        r.dx == 0,
        r.dy != 0,
        0 <= r.ox <= g.width * SQUARE_SZ,
        0 <= r.oy <= g.height() * SQUARE_SZ,
        r.ox % (SQUARE_SZ as int) != 0,
    ensures
        r.mirrored_x(g.width * SQUARE_SZ).cast(g.mirrored_x()) == mirror_x_of(
            r.cast(g),
            g.width * SQUARE_SZ,
        ),
{
    let ex = g.width * SQUARE_SZ;
    let ey = g.height() * SQUARE_SZ;
    let rm = r.mirrored_x(ex);
    let gm = g.mirrored_x();
    // The frame in which both rays run south.
    let r2 = if r.dy < 0 {
        r.mirrored_y(ey)
    } else {
        r
    };
    let g2 = if r.dy < 0 {
        g.mirrored_y()
    } else {
        g
    };
    let r2m = if r.dy < 0 {
        rm.mirrored_y(ey)
    } else {
        rm
    };
    let g2m = if r.dy < 0 {
        gm.mirrored_y()
    } else {
        gm
    };
    lemma_mirror_then_transpose(g);
    lemma_mirror_then_transpose(g2);
    assert(r2m == r2.mirrored_x(ex));
    assert(g2m == g2.mirrored_x());
    let rc = r2.transposed();
    let gc = g2.transposed();
    assert(r2m.transposed() == rc.mirrored_y(ex));
    assert(g2m.transposed() == gc.mirrored_y());
    assert(gc.height() * SQUARE_SZ == ex);
    lemma_scan_level(rc, gc, rc.first_line());
    let inner = rc.cast_south_east_east(gc);
    assert(r2m.transposed().cast_south_east_east(g2m.transposed()) == mirror_y_of(inner, ex));
    if inner is Some {
        let p = inner->0;
        assert(p.mirrored_y(ex).transposed() == p.transposed().mirrored_x(ex));
        assert(p.transposed().mirrored_x(ex).mirrored_y(ey) == p.transposed().mirrored_y(
            ey,
        ).mirrored_x(ex));
    }
}

/// Casting the mirrored ray against the grid with west and east exchanged
/// gives the mirror image of the strike of the ray itself: the same face and
/// texture, the point reflected, and the face offset `u` replaced by
/// `S - u`. An offset of 0 stays 0, since an offset lies below `S`. A ray
/// that runs due north or south along a grid line is left out: it belongs
/// to the column east of the line in either grid, and these two columns are
/// not mirror images.
pub proof fn lemma_mirror_symmetry(r: Ray, g: GridView)
    requires
        g.wf(),
        r.dx != 0 || r.dy != 0,
        0 <= r.ox <= g.width * SQUARE_SZ,
        0 <= r.oy <= g.height() * SQUARE_SZ,
        r.dx == 0 ==> r.ox % (SQUARE_SZ as int) != 0,
    ensures
        r.mirrored_x(g.width * SQUARE_SZ).cast(g.mirrored_x()) == mirror_x_of(
            r.cast(g),
            g.width * SQUARE_SZ,
        ),
{
    let extent = g.width * SQUARE_SZ;
    let rm = r.mirrored_x(extent);
    let gm = g.mirrored_x();
    lemma_mirror_x_twice(g);
    assert(rm.mirrored_x(extent) == r);
    if r.dx < 0 {
        let inner = rm.cast_east(gm);
        assert(r.cast(g) == mirror_x_of(inner, extent));
        assert(rm.cast(gm) == inner);
        lemma_offset_on_face(rm, gm);
        if inner is Some {
            let s = inner->0;
            assert(s.mirrored_x(extent).mirrored_x(extent) == s);
        }
    } else if r.dx > 0 {
        assert(rm.cast(gm) == mirror_x_of(r.cast_east(g), extent));
    } else {
        lemma_mirror_symmetry_level(r, g);
    }
}

/// What a cell of a mirrored or transposed grid is in the grid itself.
pub proof fn lemma_transformed_cells(g: GridView, x: int, y: int)
    ensures
        g.mirrored_x().cell(x, y) == g.cell(g.width - 1 - x, y),
        g.mirrored_y().cell(x, y) == g.cell(x, g.height() - 1 - y),
        g.transposed().cell(x, y) == g.cell(y, x),
{
}

proof fn lemma_transforms_keep_textures(g: GridView, n: int)
    requires
        g.textures_below(n),
    ensures
        g.mirrored_x().textures_below(n),
        g.mirrored_y().textures_below(n),
        g.transposed().textures_below(n),
{
    assert forall|x: int, y: int| #[trigger]
        g.mirrored_x().cell(x, y) matches Cell::Wall(t) ==> t < n by {
        lemma_transformed_cells(g, x, y);
        if g.mirrored_x().cell(x, y) is Wall {
            assert(g.cell(g.width - 1 - x, y) is Wall);
        }
    }
    assert forall|x: int, y: int| #[trigger]
        g.mirrored_y().cell(x, y) matches Cell::Wall(t) ==> t < n by {
        lemma_transformed_cells(g, x, y);
        if g.mirrored_y().cell(x, y) is Wall {
            assert(g.cell(x, g.height() - 1 - y) is Wall);
        }
    }
    assert forall|x: int, y: int| #[trigger]
        g.transposed().cell(x, y) matches Cell::Wall(t) ==> t < n by {
        lemma_transformed_cells(g, x, y);
        if g.transposed().cell(x, y) is Wall {
            assert(g.cell(y, x) is Wall);
        }
    }
}

proof fn lemma_scan_texture(r: Ray, g: GridView, x: int, n: int)
    requires
        g.textures_below(n),
    ensures
        r.scan(g, x) is Some ==> r.scan(g, x)->0.texture.tx < n,
    decreases g.width + 1 - x,
{
    if x <= g.width {
        let row = r.row_at(x);
        match r.step(g, x) {
            Step::Pass => {
                lemma_scan_texture(r, g, x + 1, n);
            },
            Step::Stop(s) => {
                if s is Some {
                    if s->0.texture.side == Side::NorthSouth {
                        assert(g.cell(x - 1, row) is Wall);
                    } else {
                        assert(g.cell(x, row) is Wall);
                    }
                }
            },
        }
    }
}

/// The texture of a strike is that of a wall of the grid: where every wall
/// has a texture id below `n`, so has every strike.
pub proof fn lemma_texture_on_grid(r: Ray, g: GridView, n: int)
    requires
        g.textures_below(n),
    ensures
        r.cast(g) is Some ==> r.cast(g)->0.texture.tx < n,
{
    let r1 = east_ray(r, g);
    let g1 = east_grid(r, g);
    let r2 = south_east_ray(r, g);
    let g2 = south_east_grid(r, g);
    let r3 = canonical_ray(r, g);
    let g3 = canonical_grid(r, g);
    lemma_transforms_keep_textures(g, n);
    lemma_transforms_keep_textures(g1, n);
    lemma_transforms_keep_textures(g2, n);
    lemma_scan_texture(r3, g3, r3.first_line(), n);
    let s3 = r3.cast_south_east_east(g3);
    if s3 is Some {
        let s2 = r2.cast_south_east(g2);
        assert(s2 is Some && s2->0.texture.tx < n);
        let s1 = r1.cast_east(g1);
        assert(s1 is Some && s1->0.texture.tx < n);
    }
}

/// The cell in which the ray sets out: the origin's cell, and for an
/// origin on a grid line the cell on the side to which the ray leaves.
pub open spec fn entry_cell(r: Ray, g: GridView) -> (int, int) {
    (
        if r.dx < 0 {
            g.width - 1 - (g.width * SQUARE_SZ - r.ox) / (SQUARE_SZ as int)
        } else {
            r.ox / (SQUARE_SZ as int)
        },
        if r.dy < 0 {
            g.height() - 1 - (g.height() * SQUARE_SZ - r.oy) / (SQUARE_SZ as int)
        } else {
            r.oy / (SQUARE_SZ as int)
        },
    )
}

/// A ray from a point off the grid lines sets out in the cell of that point.
pub proof fn lemma_entry_cell_off_lines(r: Ray, g: GridView)
    requires
        r.ox % (SQUARE_SZ as int) != 0,
        r.oy % (SQUARE_SZ as int) != 0,
    ensures
        entry_cell(r, g) == (r.ox / (SQUARE_SZ as int), r.oy / (SQUARE_SZ as int)),
{
}

/// The canonical frame is canonical, of the grid's size with the axes
/// perhaps exchanged; its origin's cell is the cell in which the ray sets
/// out; and a cast is a hit exactly when the walk in that frame is one.
pub proof fn lemma_canonical_frame(r: Ray, g: GridView)
    requires
        r.dx != 0 || r.dy != 0,
    ensures
        canonical_ray(r, g).canonical(),
        canonical_grid(r, g).width + canonical_grid(r, g).height() == g.width + g.height(),
        canonical_grid(r, g).cell(
            canonical_ray(r, g).ox / (SQUARE_SZ as int),
            canonical_ray(r, g).oy / (SQUARE_SZ as int),
        ) == g.cell(entry_cell(r, g).0, entry_cell(r, g).1),
        r.cast(g) is Some <==> canonical_ray(r, g).cast_south_east_east(canonical_grid(r, g))
            is Some,
{
    let r1 = east_ray(r, g);
    let g1 = east_grid(r, g);
    let r2 = south_east_ray(r, g);
    let g2 = south_east_grid(r, g);
    let cx = entry_cell(r, g).0;
    let cy = entry_cell(r, g).1;
    let s = SQUARE_SZ as int;
    lemma_transformed_cells(g, r1.ox / s, r1.oy / s);
    assert(g1.cell(r1.ox / s, r1.oy / s) == g.cell(cx, r.oy / s));
    lemma_transformed_cells(g1, r2.ox / s, r2.oy / s);
    lemma_transformed_cells(g, r2.ox / s, g.height() - 1 - r2.oy / s);
    assert(g2.cell(r2.ox / s, r2.oy / s) == g.cell(cx, cy));
    lemma_transformed_cells(g2, r2.oy / s, r2.ox / s);
}

/// The number of cell lookups that walking a canonical ray east from the
/// vertical line `x` takes.
pub open spec fn probes(r: Ray, g: GridView, x: int) -> nat
    decreases g.width + 1 - x,
{
    if x > g.width {
        0
    } else {
        let here: nat = if r.row_at(x) != r.row_before(x) && g.cell(x - 1, r.row_at(x))
            == Cell::Empty {
            2
        } else {
            1
        };
        match r.step(g, x) {
            Step::Stop(_) => here,
            Step::Pass => here + probes(r, g, x + 1),
        }
    }
}

/// From one vertical line to the next a canonical ray stays in its row or
/// moves one row south.
pub(crate) proof fn lemma_row_steps(r: Ray, x: int)
    requires
        r.canonical(),
        0 <= r.oy,
        r.first_line() <= x,
    ensures
        r.row_before(x) <= r.row_at(x) <= r.row_before(x) + 1,
{
    let d = r.dx * SQUARE_SZ;
    let before = if x == r.first_line() {
        r.oy * r.dx
    } else {
        r.y_at(x - 1)
    };
    assert(0 < d) by (nonlinear_arith)
        requires
            d == r.dx * SQUARE_SZ,
            0 < r.dx,
    ;
    if x == r.first_line() {
        lemma_origin_row(r);
        let t = x * SQUARE_SZ - r.ox;
        assert(0 < t <= SQUARE_SZ);
        assert(before <= r.y_at(x) <= before + d) by (nonlinear_arith)
            requires
                r.y_at(x) == r.oy * r.dx + r.dy * t,
                before == r.oy * r.dx,
                d == r.dx * SQUARE_SZ,
                0 < t <= SQUARE_SZ,
                0 <= r.dy <= r.dx,
        ;
    } else {
        lemma_y_at_next(r, x - 1);
        assert(before <= r.y_at(x) <= before + d) by (nonlinear_arith)
            requires
                r.y_at(x) == before + r.dy * SQUARE_SZ,
                d == r.dx * SQUARE_SZ,
                0 <= r.dy <= r.dx,
        ;
    }
    assert(before / d == r.row_before(x));
    lemma_div_is_ordered(before, r.y_at(x), d);
    lemma_div_is_ordered(r.y_at(x), d + before, d);
    lemma_div_plus_one(before, d);
}

proof fn lemma_probes_bound(r: Ray, g: GridView, x: int)
    requires
        r.canonical(),
        0 <= r.oy,
        r.first_line() <= x,
    ensures
        probes(r, g, x) <= (if x <= g.width {
            g.width + 1 - x
        } else {
            0
        }) + (if r.row_before(x) < g.height() {
            g.height() - r.row_before(x)
        } else {
            0
        }),
    decreases g.width + 1 - x,
{
    if x <= g.width {
        lemma_row_steps(r, x);
        lemma_row_steps(r, x + 1);
        if r.step(g, x) is Pass {
            lemma_probes_bound(r, g, x + 1);
        }
    }
}

/// The number of cell lookups that a cast takes.
pub open spec fn cast_probes(r: Ray, g: GridView) -> nat {
    probes(canonical_ray(r, g), canonical_grid(r, g), canonical_ray(r, g).first_line())
}

/// A cast from a passable cell along a direction other than zero looks up
/// at most as many cells as the grid has columns and rows together.
pub proof fn lemma_cast_terminates(r: Ray, g: GridView)
    requires
        r.dx != 0 || r.dy != 0,
        g.cell(r.ox / (SQUARE_SZ as int), r.oy / (SQUARE_SZ as int)) == Cell::Empty,
    ensures
        cast_probes(r, g) <= g.width + g.height(),
{
    lemma_canonical_frame(r, g);
    let rc = canonical_ray(r, g);
    let gc = canonical_grid(r, g);
    assert(0 <= rc.ox && 0 <= rc.oy);
    lemma_probes_bound(rc, gc, rc.first_line());
}

/// The grid is a closed room: it has cells, and every cell on its border
/// is a wall.
pub open spec fn enclosed(g: GridView) -> bool {
    forall|x: int, y: int|
        g.in_bounds(x, y) && (x == 0 || y == 0 || x == g.width - 1 || y == g.height() - 1)
            ==> #[trigger] g.cell(x, y) is Wall
}

proof fn lemma_transforms_keep_enclosed(g: GridView)
    requires
        enclosed(g),
    ensures
        enclosed(g.mirrored_x()),
        enclosed(g.mirrored_y()),
        enclosed(g.transposed()),
{
    assert forall|x: int, y: int|
        g.mirrored_x().in_bounds(x, y) && (x == 0 || y == 0 || x == g.mirrored_x().width - 1 || y
            == g.mirrored_x().height() - 1) implies #[trigger] g.mirrored_x().cell(x, y) is Wall by {
        lemma_transformed_cells(g, x, y);
        assert(g.cell(g.width - 1 - x, y) is Wall);
    }
    assert forall|x: int, y: int|
        g.mirrored_y().in_bounds(x, y) && (x == 0 || y == 0 || x == g.mirrored_y().width - 1 || y
            == g.mirrored_y().height() - 1) implies #[trigger] g.mirrored_y().cell(x, y) is Wall by {
        lemma_transformed_cells(g, x, y);
        assert(g.cell(x, g.height() - 1 - y) is Wall);
    }
    assert forall|x: int, y: int|
        g.transposed().in_bounds(x, y) && (x == 0 || y == 0 || x == g.transposed().width - 1 || y
            == g.transposed().height() - 1) implies #[trigger] g.transposed().cell(x, y) is Wall by {
        lemma_transformed_cells(g, x, y);
        assert(g.cell(y, x) is Wall);
    }
}

proof fn lemma_scan_enclosed(r: Ray, g: GridView, x: int)
    requires
        enclosed(g),
        r.canonical(),
        0 <= r.oy,
        r.first_line() <= x,
        g.cell(x - 1, r.row_before(x)) == Cell::Empty,
    ensures
        r.scan(g, x) is Some,
    decreases g.width + 1 - x,
{
    let row = r.row_at(x);
    lemma_row_steps(r, x);
    assert(g.in_bounds(x - 1, r.row_before(x)));
    assert(g.in_bounds(x - 1, row) ==> g.cell(x - 1, row) is Wall || g.cell(x - 1, row) is Empty);
    assert(g.in_bounds(x, row) ==> g.cell(x, row) is Wall || g.cell(x, row) is Empty);
    if r.step(g, x) is Pass {
        lemma_scan_enclosed(r, g, x + 1);
    }
}

/// In a closed room no ray misses: a cast that sets out in a passable cell,
/// along a direction other than zero, strikes a wall.
pub proof fn lemma_closed_room_always_hits(r: Ray, g: GridView)
    requires
        enclosed(g),
        r.dx != 0 || r.dy != 0,
        g.cell(entry_cell(r, g).0, entry_cell(r, g).1) == Cell::Empty,
    ensures
        r.cast(g) is Some,
{
    lemma_canonical_frame(r, g);
    lemma_transforms_keep_enclosed(g);
    lemma_transforms_keep_enclosed(east_grid(r, g));
    lemma_transforms_keep_enclosed(south_east_grid(r, g));
    let rc = canonical_ray(r, g);
    let gc = canonical_grid(r, g);
    assert(gc.in_bounds(rc.ox / (SQUARE_SZ as int), rc.oy / (SQUARE_SZ as int)));
    lemma_scan_enclosed(rc, gc, rc.first_line());
}

/// The strike lies `t` direction vectors along the ray from its origin.
pub open spec fn on_ray(s: Strike, r: Ray, t: int) -> bool {
    &&& t > 0
    &&& s.x - r.ox * s.den == t * r.dx
    &&& s.y - r.oy * s.den == t * r.dy
}

/// The strike lies on the ray, ahead of its origin.
pub open spec fn ahead_on(s: Strike, r: Ray) -> bool {
    exists|t: int| #[trigger] on_ray(s, r, t)
}

pub(crate) proof fn lemma_scan_on_ray(r: Ray, g: GridView, x: int)
    requires
        r.canonical(),
        0 <= r.oy,
        r.first_line() <= x,
        r.oy / (SQUARE_SZ as int) <= r.row_before(x),
    ensures
        r.scan(g, x) is Some ==> ahead_on(r.scan(g, x)->0, r),
    decreases g.width + 1 - x,
{
    if x <= g.width {
        let row = r.row_at(x);
        lemma_row_steps(r, x);
        match r.step(g, x) {
            Step::Pass => {
                lemma_scan_on_ray(r, g, x + 1);
            },
            Step::Stop(s) => {
                if s is Some {
                    let s = s->0;
                    if s.texture.side == Side::NorthSouth {
                        let t = row * SQUARE_SZ - r.oy;
                        assert(s.x - r.ox * s.den == t * r.dx && s.y - r.oy * s.den == t * r.dy)
                            by (nonlinear_arith)
                            requires
                                s.x == r.ox * r.dy + r.dx * (row * SQUARE_SZ - r.oy),
                                s.y == row * SQUARE_SZ * r.dy,
                                s.den == r.dy,
                                t == row * SQUARE_SZ - r.oy,
                        ;
                        assert(on_ray(s, r, t));
                    } else {
                        let t = x * SQUARE_SZ - r.ox;
                        assert(s.x - r.ox * s.den == t * r.dx && s.y - r.oy * s.den == t * r.dy)
                            by (nonlinear_arith)
                            requires
                                s.x == x * SQUARE_SZ * r.dx,
                                s.y == r.oy * r.dx + r.dy * (x * SQUARE_SZ - r.ox),
                                s.den == r.dx,
                                t == x * SQUARE_SZ - r.ox,
                        ;
                        assert(on_ray(s, r, t));
                    }
                }
            },
        }
    }
}

pub(crate) proof fn lemma_transforms_keep_on_ray(s: Strike, r: Ray, t: int, extent: int)
    requires
        on_ray(s, r, t),
    ensures
        on_ray(s.transposed(), r.transposed(), t),
        on_ray(s.mirrored_x(extent), r.mirrored_x(extent), t),
        on_ray(s.mirrored_y(extent), r.mirrored_y(extent), t),
{
    assert((extent * s.den - s.x) - (extent - r.ox) * s.den == t * (-r.dx)) by (nonlinear_arith)
        requires
            s.x - r.ox * s.den == t * r.dx,
    ;
    assert((extent * s.den - s.y) - (extent - r.oy) * s.den == t * (-r.dy)) by (nonlinear_arith)
        requires
            s.y - r.oy * s.den == t * r.dy,
    ;
}

/// Every strike lies on its ray, ahead of the origin.
pub proof fn lemma_strike_on_ray(r: Ray, g: GridView)
    requires
        r.dx != 0 || r.dy != 0,
        g.cell(r.ox / (SQUARE_SZ as int), r.oy / (SQUARE_SZ as int)) == Cell::Empty,
    ensures
        r.cast(g) is Some ==> ahead_on(r.cast(g)->0, r),
{
    let r1 = east_ray(r, g);
    let g1 = east_grid(r, g);
    let r2 = south_east_ray(r, g);
    let g2 = south_east_grid(r, g);
    let r3 = canonical_ray(r, g);
    let g3 = canonical_grid(r, g);
    lemma_canonical_frame(r, g);
    assert(0 <= r3.ox && 0 <= r3.oy);
    lemma_scan_on_ray(r3, g3, r3.first_line());
    let s3 = r3.cast_south_east_east(g3);
    if s3 is Some {
        let t = choose|t: int| #[trigger] on_ray(s3->0, r3, t);
        let s2 = r2.cast_south_east(g2)->0;
        if r2.dy > r2.dx {
            lemma_transforms_keep_on_ray(s3->0, r3, t, 0);
            assert(r3.transposed() == r2);
        }
        assert(on_ray(s2, r2, t));
        let s1 = r1.cast_east(g1)->0;
        if r1.dy < 0 {
            let extent = g1.height() * SQUARE_SZ;
            lemma_transforms_keep_on_ray(s2, r2, t, extent);
            assert(r2.mirrored_y(extent) == r1);
        }
        assert(on_ray(s1, r1, t));
        if r.dx < 0 {
            let extent = g.width * SQUARE_SZ;
            lemma_transforms_keep_on_ray(s1, r1, t, extent);
            assert(r1.mirrored_x(extent) == r);
        }
        assert(on_ray(r.cast(g)->0, r, t));
    }
}

/// Exchanging north and south twice gives the grid back, and the two
/// mirrors commute.
pub proof fn lemma_mirror_y_twice(g: GridView)
    requires
        g.wf(),
    ensures
        g.mirrored_y().mirrored_y() == g,
        g.mirrored_y().wf(),
        g.mirrored_x().wf(),
        g.mirrored_y().mirrored_x() == g.mirrored_x().mirrored_y(),
{
    let m = g.mirrored_y().mirrored_y();
    assert(m.rows =~= g.rows) by {
        assert forall|r: int| 0 <= r < g.rows.len() implies #[trigger] m.rows[r] =~= g.rows[r] by {
            assert(g.rows[r].len() == g.width);
        }
    }
    let a = g.mirrored_y().mirrored_x();
    let b = g.mirrored_x().mirrored_y();
    assert(a.rows =~= b.rows) by {
        assert forall|r: int| 0 <= r < a.rows.len() implies #[trigger] a.rows[r] =~= b.rows[r] by {
        }
    }
}

proof fn lemma_east_mirror_y(r: Ray, g: GridView)
    requires
        g.wf(),
        r.dy != 0,
        0 <= r.dx,
        0 <= r.ox <= g.width * SQUARE_SZ,
        0 <= r.oy <= g.height() * SQUARE_SZ,
    ensures
        r.mirrored_y(g.height() * SQUARE_SZ).cast_east(g.mirrored_y()) == mirror_y_of(
            r.cast_east(g),
            g.height() * SQUARE_SZ,
        ),
{
    let extent = g.height() * SQUARE_SZ;
    let rm = r.mirrored_y(extent);
    let gm = g.mirrored_y();
    lemma_mirror_y_twice(g);
    assert(rm.mirrored_y(extent) == r);
    if r.dy < 0 {
        let inner = rm.cast_south_east(gm);
        assert(r.cast_east(g) == mirror_y_of(inner, extent));
        assert(rm.cast_east(gm) == inner);
        assert(rm.cast(gm) == inner);
        lemma_offset_on_face(rm, gm);
        if inner is Some {
            let s = inner->0;
            assert(s.mirrored_y(extent).mirrored_y(extent) == s);
        }
    } else {
        assert(rm.cast_east(gm) == mirror_y_of(r.cast_south_east(g), extent));
    }
}

/// Mirror symmetry about the other axis for a ray without a northward or
/// southward component.
proof fn lemma_mirror_y_symmetry_level(r: Ray, g: GridView)
    requires
        g.wf(),
        r.dy == 0,
        r.dx != 0,
        0 <= r.ox <= g.width * SQUARE_SZ,
        0 <= r.oy <= g.height() * SQUARE_SZ,
        r.oy % (SQUARE_SZ as int) != 0,
    ensures
        r.mirrored_y(g.height() * SQUARE_SZ).cast(g.mirrored_y()) == mirror_y_of(
            r.cast(g),
            g.height() * SQUARE_SZ,
        ),
{
    let ex = g.width * SQUARE_SZ;
    let ey = g.height() * SQUARE_SZ;
    let rm = r.mirrored_y(ey);
    // The frame in which both rays run east.
    let rc = if r.dx < 0 {
        r.mirrored_x(ex)
    } else {
        r
    };
    let gc = if r.dx < 0 {
        g.mirrored_x()
    } else {
        g
    };
    lemma_mirror_then_transpose(g);
    assert(east_ray(rm, g.mirrored_y()) == rc.mirrored_y(ey));
    assert(east_grid(rm, g.mirrored_y()) == gc.mirrored_y());
    lemma_scan_level(rc, gc, rc.first_line());
    let inner = rc.cast_south_east_east(gc);
    assert(rc.mirrored_y(ey).cast_east(gc.mirrored_y()) == mirror_y_of(inner, ey));
    if inner is Some {
        let p = inner->0;
        assert(p.mirrored_y(ey).mirrored_x(ex) == p.mirrored_x(ex).mirrored_y(ey));
    }
}

/// The same about the other axis: casting the mirrored ray against the grid
/// with north and south exchanged gives the mirror image of the strike of
/// the ray itself. A ray that runs due east or west along a grid line is
/// left out, for the same reason.
pub proof fn lemma_mirror_y_symmetry(r: Ray, g: GridView)
    requires
        g.wf(),
        r.dx != 0 || r.dy != 0,
        0 <= r.ox <= g.width * SQUARE_SZ,
        0 <= r.oy <= g.height() * SQUARE_SZ,
        r.dy == 0 ==> r.oy % (SQUARE_SZ as int) != 0,
    ensures
        r.mirrored_y(g.height() * SQUARE_SZ).cast(g.mirrored_y()) == mirror_y_of(
            r.cast(g),
            g.height() * SQUARE_SZ,
        ),
{
    let ex = g.width * SQUARE_SZ;
    let ey = g.height() * SQUARE_SZ;
    lemma_mirror_y_twice(g);
    if r.dy == 0 {
        lemma_mirror_y_symmetry_level(r, g);
    } else if r.dx < 0 {
        let rx = r.mirrored_x(ex);
        let gx = g.mirrored_x();
        lemma_east_mirror_y(rx, gx);
        assert(r.mirrored_y(ey).mirrored_x(ex) == rx.mirrored_y(ey));
        let inner = rx.cast_east(gx);
        assert(r.cast(g) == mirror_x_of(inner, ex));
        assert(r.mirrored_y(ey).cast(g.mirrored_y()) == mirror_x_of(mirror_y_of(inner, ey), ex));
        if inner is Some {
            let s = inner->0;
            assert(s.mirrored_y(ey).mirrored_x(ex) == s.mirrored_x(ex).mirrored_y(ey));
        }
    } else {
        lemma_east_mirror_y(r, g);
    }
}

/// What a column's ray strikes lies in front of the camera, so that every
/// strike of a render gives a wall to draw.
pub proof fn lemma_column_strike_visible(g: GridView, pos: Point, dir: Point, sw: int, x: int)
    requires
        camera_dir(dir),
        0 < sw,
        g.cell(pos.x as int / (SQUARE_SZ as int), pos.y as int / (SQUARE_SZ as int))
            == Cell::Empty,
    ensures
        column_ray(pos, dir, sw, x).cast(g) is Some ==> visible(
            column_ray(pos, dir, sw, x).cast(g),
            pos,
            dir,
        ),
{
    let r = column_ray(pos, dir, sw, x);
    lemma_column_dir_forward(dir, sw, x);
    lemma_strike_on_ray(r, g);
    if r.cast(g) is Some {
        let s = r.cast(g)->0;
        let t = choose|t: int| #[trigger] on_ray(s, r, t);
        let dx = dir.x as int;
        let dy = dir.y as int;
        assert(depth(s, pos, dir) > 0) by (nonlinear_arith)
            requires
                depth(s, pos, dir) == (s.x - pos.x * s.den) * dx + (s.y - pos.y * s.den) * dy,
                s.x - pos.x * s.den == t * r.dx,
                s.y - pos.y * s.den == t * r.dy,
                r.dx * dx + r.dy * dy > 0,
                t > 0,
        {
            assert((t * r.dx) * dx + (t * r.dy) * dy == t * (r.dx * dx + r.dy * dy));
        }
    }
}

/// In a closed room every screen column shows a wall: seen from a point in
/// a passable cell, the ray through a column strikes a wall in front of the
/// camera wherever the cell in which that ray sets out is passable. For a
/// camera off the grid lines that is the camera's own cell, whatever the
/// direction.
pub proof fn lemma_closed_room_fills_every_column(
    g: GridView,
    pos: Point,
    dir: Point,
    sw: int,
    x: int,
)
    requires
        enclosed(g),
        camera_dir(dir),
        0 < sw,
        g.cell(pos.x as int / (SQUARE_SZ as int), pos.y as int / (SQUARE_SZ as int))
            == Cell::Empty,
        g.cell(
            entry_cell(column_ray(pos, dir, sw, x), g).0,
            entry_cell(column_ray(pos, dir, sw, x), g).1,
        ) == Cell::Empty,
    ensures
        visible(column_ray(pos, dir, sw, x).cast(g), pos, dir),
{
    let r = column_ray(pos, dir, sw, x);
    lemma_column_dir_forward(dir, sw, x);
    lemma_closed_room_always_hits(r, g);
    lemma_column_strike_visible(g, pos, dir, sw, x);
}

/// The camera direction mirrored about the west-east axis.
pub open spec fn mirrored_dir_y(dir: Point) -> Point {
    Point { x: dir.x, y: (-dir.y) as i64 }
}

/// In a room that is its own mirror image about the
/// west-east axis through the camera, turning the camera to the mirrored
/// direction mirrors the picture: column `x` then shows a wall of the same
/// projected height as column `sw - 1 - x` did.
pub proof fn lemma_angular_symmetry_y(
    g: GridView,
    pos: Point,
    dir: Point,
    sw: int,
    sh: int,
    x: int,
)
    requires
        g.wf(),
        g.mirrored_y() == g,
        2 * pos.y == g.height() * SQUARE_SZ,
        g.cell(pos.x as int / (SQUARE_SZ as int), pos.y as int / (SQUARE_SZ as int))
            == Cell::Empty,
        camera_dir(dir),
        0 <= x < sw,
    ensures
        span_top(
            column_ray(pos, mirrored_dir_y(dir), sw, sw - 1 - x).cast(g),
            pos,
            mirrored_dir_y(dir),
            sh,
        ) == span_top(column_ray(pos, dir, sw, x).cast(g), pos, dir, sh),
        span_bottom(
            column_ray(pos, mirrored_dir_y(dir), sw, sw - 1 - x).cast(g),
            pos,
            mirrored_dir_y(dir),
            sh,
        ) == span_bottom(column_ray(pos, dir, sw, x).cast(g), pos, dir, sh),
{
    let extent = g.height() * SQUARE_SZ;
    let other = mirrored_dir_y(dir);
    let r = column_ray(pos, dir, sw, x);
    let rm = column_ray(pos, other, sw, sw - 1 - x);
    let a = 2 * sw * PLANE_DISTANCE;
    let b = PLANE_WIDTH * (2 * x + 1 - sw);
    let bm = PLANE_WIDTH * (2 * (sw - 1 - x) + 1 - sw);
    let dx = dir.x as int;
    let dy = dir.y as int;
    assert(bm == -b) by (nonlinear_arith)
        requires
            b == PLANE_WIDTH * (2 * x + 1 - sw),
            bm == PLANE_WIDTH * (2 * (sw - 1 - x) + 1 - sw),
    ;
    assert(a * dx - bm * (-dy) == a * dx - b * dy && a * (-dy) + bm * dx == -(a * dy + b * dx))
        by (nonlinear_arith)
        requires
            bm == -b,
    ;
    assert(rm == r.mirrored_y(extent));
    let s = r.cast(g);
    let sm = rm.cast(g);
    lemma_column_dir_forward(dir, sw, x);
    if r.dy != 0 {
        lemma_mirror_y_symmetry(r, g);
        assert(sm == mirror_y_of(s, extent));
    } else {
        assert(rm == r);
        lemma_strike_on_ray(r, g);
    }
    if s is Some {
        let p = s->0;
        let q = sm->0;
        assert(q.x == p.x && q.den == p.den);
        let south = p.y - pos.y * p.den;
        let north = q.y - pos.y * q.den;
        if r.dy != 0 {
            assert(q.y == extent * p.den - p.y);
            assert(north == -south) by (nonlinear_arith)
                requires
                    north == extent * p.den - p.y - pos.y * p.den,
                    south == p.y - pos.y * p.den,
                    2 * pos.y == extent,
            ;
        } else {
            let t = choose|t: int| #[trigger] on_ray(p, r, t);
            assert(south == 0) by (nonlinear_arith)
                requires
                    south == t * r.dy,
                    r.dy == 0,
            ;
            assert(q == p);
        }
        assert(north * (-dy) == south * dy) by (nonlinear_arith)
            requires
                north == -south,
        ;
        assert(other.y == -dy);
        assert(depth(q, pos, other) == depth(p, pos, dir));
        assert(reach(q) == reach(p));
    }
}

/// The camera direction mirrored about the north-south axis.
pub open spec fn mirrored_dir_x(dir: Point) -> Point {
    Point { x: (-dir.x) as i64, y: dir.y }
}

/// The same about the other axis: in a room that is its own mirror
/// image about the north-south axis through the camera, turning the camera to the mirrored
/// direction mirrors the picture: column `x` then shows a wall of the same
/// projected height as column `sw - 1 - x` did.
pub proof fn lemma_angular_symmetry_x(
    g: GridView,
    pos: Point,
    dir: Point,
    sw: int,
    sh: int,
    x: int,
)
    requires
        g.wf(),
        g.mirrored_x() == g,
        2 * pos.x == g.width * SQUARE_SZ,
        g.cell(pos.x as int / (SQUARE_SZ as int), pos.y as int / (SQUARE_SZ as int))
            == Cell::Empty,
        camera_dir(dir),
        0 <= x < sw,
    ensures
        span_top(
            column_ray(pos, mirrored_dir_x(dir), sw, sw - 1 - x).cast(g),
            pos,
            mirrored_dir_x(dir),
            sh,
        ) == span_top(column_ray(pos, dir, sw, x).cast(g), pos, dir, sh),
        span_bottom(
            column_ray(pos, mirrored_dir_x(dir), sw, sw - 1 - x).cast(g),
            pos,
            mirrored_dir_x(dir),
            sh,
        ) == span_bottom(column_ray(pos, dir, sw, x).cast(g), pos, dir, sh),
{
    let extent = g.width * SQUARE_SZ;
    let other = mirrored_dir_x(dir);
    let r = column_ray(pos, dir, sw, x);
    let rm = column_ray(pos, other, sw, sw - 1 - x);
    let a = 2 * sw * PLANE_DISTANCE;
    let b = PLANE_WIDTH * (2 * x + 1 - sw);
    let bm = PLANE_WIDTH * (2 * (sw - 1 - x) + 1 - sw);
    let dx = dir.x as int;
    let dy = dir.y as int;
    assert(bm == -b) by (nonlinear_arith)
        requires
            b == PLANE_WIDTH * (2 * x + 1 - sw),
            bm == PLANE_WIDTH * (2 * (sw - 1 - x) + 1 - sw),
    ;
    assert(a * (-dx) - bm * dy == -(a * dx - b * dy) && a * dy + bm * (-dx) == a * dy + b * dx)
        by (nonlinear_arith)
        requires
            bm == -b,
    ;
    assert(rm == r.mirrored_x(extent));
    let s = r.cast(g);
    let sm = rm.cast(g);
    lemma_column_dir_forward(dir, sw, x);
    if r.dx != 0 {
        lemma_mirror_symmetry(r, g);
        assert(sm == mirror_x_of(s, extent));
    } else {
        assert(rm == r);
        lemma_strike_on_ray(r, g);
    }
    if s is Some {
        let p = s->0;
        let q = sm->0;
        assert(q.y == p.y && q.den == p.den);
        let east = p.x - pos.x * p.den;
        let west = q.x - pos.x * q.den;
        if r.dx != 0 {
            assert(q.x == extent * p.den - p.x);
            assert(west == -east) by (nonlinear_arith)
                requires
                    west == extent * p.den - p.x - pos.x * p.den,
                    east == p.x - pos.x * p.den,
                    2 * pos.x == extent,
            ;
        } else {
            let t = choose|t: int| #[trigger] on_ray(p, r, t);
            assert(east == 0) by (nonlinear_arith)
                requires
                    east == t * r.dx,
                    r.dx == 0,
            ;
            assert(q == p);
        }
        assert(west * (-dx) == east * dx) by (nonlinear_arith)
            requires
                west == -east,
        ;
        assert(other.x == -dx);
        assert(depth(q, pos, other) == depth(p, pos, dir));
        assert(reach(q) == reach(p));
    }
}

} // verus!
