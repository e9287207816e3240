use vstd::prelude::*;
use vstd::arithmetic::div_mod::*;
use crate::consts::{MAX_CELLS, MAX_DIR, MAX_SCREEN, SQUARE_SZ, UNIT};
use crate::grid::{Cell, GridMap, GridView};
use crate::laws::lemma_texture_on_grid;
use crate::ray::{cast_ray, ray_of, small_grid, strike_of, Hit, Point, Ray, Strike};
use crate::screen::{put, Pixel, Screen, ScreenView};
use crate::textures::{tile_of, Textures, Tile, ATLAS_LEN, TEXTURES, TILE_SZ};

verus! {

/// Height of a wall, in world units.
pub const WALL_HEIGHT: i64 = 64;

/// Width of the projection plane, in sub-units: 320 world units.
pub const PLANE_WIDTH: i64 = 327680;

/// Distance from the camera to the projection plane, in sub-units: half the
/// plane's width over the tangent of half the field of view of 60 degrees.
pub const PLANE_DISTANCE: i64 = 283779;

/// Length of a camera direction: a unit vector has components scaled by
/// this.
pub const DIR_ONE: i64 = 16384;

/// The colour of the ceiling.
pub fn ceil_colour() -> (p: Pixel)
    ensures
        p == (Pixel { r: 255, g: 0, b: 0, a: 255 }),
{
    Pixel { r: 255, g: 0, b: 0, a: 255 }
}

/// The colour of the floor.
pub fn floor_colour() -> (p: Pixel)
    ensures
        p == (Pixel { r: 0, g: 0, b: 255, a: 255 }),
{
    Pixel { r: 0, g: 0, b: 255, a: 255 }
}

/// Whether a camera direction is usable: not zero, and no longer than a
/// unit vector along either axis.
pub open spec fn camera_dir(dir: Point) -> bool {
    &&& -DIR_ONE <= dir.x <= DIR_ONE
    &&& -DIR_ONE <= dir.y <= DIR_ONE
    &&& (dir.x != 0 || dir.y != 0)
}

/// The direction of the ray through the middle of screen column `x` of
/// `sw`, scaled by `2 * sw`: from the camera to the left end of the
/// projection plane, then `x + 1/2` columns along the plane.
pub open spec fn column_dir(dir: Point, sw: int, x: int) -> (int, int) {
    (
        2 * sw * PLANE_DISTANCE * dir.x - PLANE_WIDTH * (2 * x + 1 - sw) * dir.y,
        2 * sw * PLANE_DISTANCE * dir.y + PLANE_WIDTH * (2 * x + 1 - sw) * dir.x,
    )
}

/// The ray through the middle of screen column `x`.
pub open spec fn column_ray(pos: Point, dir: Point, sw: int, x: int) -> Ray {
    Ray {
        ox: pos.x as int,
        oy: pos.y as int,
        dx: column_dir(dir, sw, x).0,
        dy: column_dir(dir, sw, x).1,
    }
}

/// The distance of a strike from the camera along the view axis, times the
/// strike's denominator and the length of the direction.
pub open spec fn depth(s: Strike, pos: Point, dir: Point) -> int {
    (s.x - pos.x * s.den) * dir.x + (s.y - pos.y * s.den) * dir.y
}

/// The projected height of a wall in screen rows, times `depth`.
pub open spec fn reach(s: Strike) -> int {
    WALL_HEIGHT * PLANE_DISTANCE * s.den * DIR_ONE
}

/// The row at which a wall's projection begins, before clipping: the floor
/// of half the screen height less half the projected height.
pub open spec fn wall_top(sh: int, depth: int, reach: int) -> int {
    (sh * depth - reach) / (2 * depth)
}

/// The row at which a wall's projection ends, before clipping.
pub open spec fn wall_bottom(sh: int, depth: int, reach: int) -> int {
    (sh * depth + reach) / (2 * depth)
}

/// Whether a strike gives a wall to draw: it lies in front of the camera.
pub open spec fn visible(s: Option<Strike>, pos: Point, dir: Point) -> bool {
    s is Some && depth(s->0, pos, dir) > 0
}

/// First row of the wall on a screen of `sh` rows. Without a wall the
/// ceiling ends at the horizon.
pub open spec fn span_top(s: Option<Strike>, pos: Point, dir: Point, sh: int) -> int {
    if visible(s, pos, dir) {
        let t = wall_top(sh, depth(s->0, pos, dir), reach(s->0));
        if t < 0 {
            0
        } else {
            t
        }
    } else {
        sh / 2
    }
}

/// The row after the last row of the wall. Without a wall the floor begins
/// at the horizon.
pub open spec fn span_bottom(s: Option<Strike>, pos: Point, dir: Point, sh: int) -> int {
    if visible(s, pos, dir) {
        let b = wall_bottom(sh, depth(s->0, pos, dir), reach(s->0));
        if b > sh {
            sh
        } else {
            b
        }
    } else {
        sh / 2
    }
}

/// The tile column for a strike: its face offset in world units, kept
/// inside the tile.
pub open spec fn texel_col(s: Strike) -> int {
    let c = s.u / (s.den * UNIT);
    if c >= TILE_SZ {
        TILE_SZ - 1
    } else {
        c
    }
}

/// The tile row for screen row `y` of a wall whose projection begins at
/// row `top`, kept inside the tile: the tile's height is spread over the
/// projected height.
pub open spec fn texel_row(y: int, top: int, depth: int, reach: int) -> int {
    let v = ((y - top) * depth * TILE_SZ) / reach;
    if v >= TILE_SZ {
        TILE_SZ - 1
    } else {
        v
    }
}

/// The pixel of row `y` in the column drawn for a cast's outcome: ceiling
/// above the wall, the wall's texture on it, floor below.
pub open spec fn column_pixel(
    atlas: Seq<Pixel>,
    s: Option<Strike>,
    pos: Point,
    dir: Point,
    sh: int,
    y: int,
) -> Pixel {
    if y < span_top(s, pos, dir, sh) {
        Pixel { r: 255, g: 0, b: 0, a: 255 }
    } else if y < span_bottom(s, pos, dir, sh) {
        let d = depth(s->0, pos, dir);
        let h = reach(s->0);
        tile_of(atlas, s->0.texture)[texel_row(y, wall_top(sh, d, h), d, h) * TILE_SZ + texel_col(
            s->0,
        )]
    } else {
        Pixel { r: 0, g: 0, b: 255, a: 255 }
    }
}

/// The pixel in column `x` of row `y` of the view from `pos` along `dir`
/// on a screen of `sw` by `sh` pixels.
pub open spec fn frame_pixel(
    g: GridView,
    atlas: Seq<Pixel>,
    pos: Point,
    dir: Point,
    sw: int,
    sh: int,
    x: int,
    y: int,
) -> Pixel {
    column_pixel(atlas, column_ray(pos, dir, sw, x).cast(g), pos, dir, sh, y)
}

/// `after` has the size of `before`, and the same pixels everywhere but in
/// rows `from` to `to` of column `x`.
pub open spec fn same_but(before: ScreenView, after: ScreenView, x: int, from: int, to: int) -> bool {
    &&& after.width == before.width
    &&& after.rows.len() == before.rows.len()
    &&& after.wf()
    &&& forall|r: int, c: int|
        0 <= r < before.rows.len() && 0 <= c < before.width && !(c == x && from <= r < to)
            ==> #[trigger] after.rows[r][c] == before.rows[r][c]
}

// In the bounds below, 75557863725914323419136 is `MAX_EXTENT * MAX_DIR`,
// the largest numerator of a strike; 2475880078570760549798248448 is twice
// that times `DIR_ONE`, the largest depth; and 83756777383891565568589824 is
// the largest reach.
proof fn lemma_signed_product_bound(a: int, b: int, ma: int, mb: int)
    by (nonlinear_arith)
    requires
        -ma <= a <= ma,
        -mb <= b <= mb,
    ensures
        -(ma * mb) <= a * b <= ma * mb,
{
}

/// A strike within any grid of the permitted size lies within the largest.
proof fn lemma_within_largest(s: Strike, w: int, h: int)
    by (nonlinear_arith)
    requires
        s.within(w, h),
        0 <= w <= 4096,
        0 <= h <= 4096,
    ensures
        s.within(4096, 4096),
        s.x <= 75557863725914323419136,
        s.y <= 75557863725914323419136,
        s.u <= 18446744073709551616,
{
}

/// A column's ray runs forward: along the camera's direction it advances
/// by the plane distance times the squared length of the direction.
pub(crate) proof fn lemma_column_dir_forward(dir: Point, sw: int, x: int)
    requires
        camera_dir(dir),
        0 < sw,
    ensures
        column_dir(dir, sw, x).0 * dir.x + column_dir(dir, sw, x).1 * dir.y > 0,
        column_dir(dir, sw, x).0 != 0 || column_dir(dir, sw, x).1 != 0,
{
    let a = 2 * sw * PLANE_DISTANCE;
    let b = PLANE_WIDTH * (2 * x + 1 - sw);
    let dx = dir.x as int;
    let dy = dir.y as int;
    assert((a * dx - b * dy) * dx + (a * dy + b * dx) * dy > 0) by (nonlinear_arith)
        requires
            a > 0,
            dx != 0 || dy != 0,
    {
        assert((a * dx - b * dy) * dx + (a * dy + b * dx) * dy == a * (dx * dx + dy * dy));
        assert(dx * dx + dy * dy > 0);
        assert(a * (dx * dx + dy * dy) > 0);
    }
}

/// Largest magnitude that `floor_div` takes.
pub const FLOOR_DIV_MAX: i128 = 0x1000_0000_0000_0000_0000_0000_0000;

/// The floor of `n / d` for a positive `d`.
pub fn floor_div(n: i128, d: i128) -> (q: i128)
    requires
        0 < d <= FLOOR_DIV_MAX,
        -FLOOR_DIV_MAX <= n <= FLOOR_DIV_MAX,
    ensures
        q == n as int / d as int,
{
    if n >= 0 {
        n / d
    } else {
        let up: i128 = -n + (d - 1);
        let q1: i128 = up / d;
        proof {
            let rem = up as int % d as int;
            lemma_fundamental_div_mod(up as int, d as int);
            lemma_mod_bound(up as int, d as int);
            lemma_div_pos_is_pos(up as int, d as int);
            assert(n as int == (-q1) * d + (d - 1 - rem)) by (nonlinear_arith)
                requires
                    up == d * q1 + rem,
                    up == -n + (d - 1),
            ;
            lemma_fundamental_div_mod_converse(n as int, d as int, -q1, d - 1 - rem);
            assert(q1 <= up) by (nonlinear_arith)
                requires
                    up == d * q1 + rem,
                    0 <= rem,
                    0 <= q1,
                    1 <= d,
            ;
        }
        -q1
    }
}

/// The direction of the ray through the middle of screen column `x`.
pub fn column_direction(dir: Point, sw: usize, x: usize) -> (ray: Point)
    requires
        camera_dir(dir),
        0 < sw <= MAX_SCREEN,
        x < sw,
    ensures
        ray.x == column_dir(dir, sw as int, x as int).0,
        ray.y == column_dir(dir, sw as int, x as int).1,
        -MAX_DIR <= ray.x <= MAX_DIR,
        -MAX_DIR <= ray.y <= MAX_DIR,
        ray.x != 0 || ray.y != 0,
{
    let ahead: i64 = 2 * (sw as i64) * PLANE_DISTANCE;
    let along: i64 = PLANE_WIDTH * (2 * (x as i64) + 1 - sw as i64);
    proof {
        lemma_column_dir_forward(dir, sw as int, x as int);
        lemma_signed_product_bound(ahead as int, dir.x as int, 2324717568, 16384);
        lemma_signed_product_bound(ahead as int, dir.y as int, 2324717568, 16384);
        lemma_signed_product_bound(along as int, dir.x as int, 1342177280, 16384);
        lemma_signed_product_bound(along as int, dir.y as int, 1342177280, 16384);
    }
    Point { x: ahead * dir.x - along * dir.y, y: ahead * dir.y + along * dir.x }
}

/// The depth of a strike, as `depth` defines it.
fn depth_of(h: &Hit, pos: Point, dir: Point) -> (d: i128)
    requires
        h@.within(4096, 4096),
        camera_dir(dir),
        0 <= pos.x <= 268435456,
        0 <= pos.y <= 268435456,
    ensures
        d == depth(h@, pos, dir),
        -2475880078570760549798248448 <= d <= 2475880078570760549798248448,
{
    proof {
        lemma_within_largest(h@, 4096, 4096);
        lemma_signed_product_bound(pos.x as int, h.den as int, 268435456, 281474976710656);
        lemma_signed_product_bound(pos.y as int, h.den as int, 268435456, 281474976710656);
        assert(0 <= pos.x * h.den && 0 <= pos.y * h.den) by (nonlinear_arith)
            requires
                0 <= pos.x,
                0 <= pos.y,
                0 < h.den,
        ;
        lemma_signed_product_bound(
            h.x - pos.x * h.den,
            dir.x as int,
            75557863725914323419136,
            16384,
        );
        lemma_signed_product_bound(
            h.y - pos.y * h.den,
            dir.y as int,
            75557863725914323419136,
            16384,
        );
    }
    let east: i128 = h.x - pos.x as i128 * h.den;
    let south: i128 = h.y - pos.y as i128 * h.den;
    east * dir.x as i128 + south * dir.y as i128
}

/// Paints rows `from` to `to` of column `x` in one colour.
fn fill_rows(screen: &mut Screen, x: usize, from: usize, to: usize, p: Pixel)
    requires
        old(screen)@.wf(),
        x < old(screen)@.width,
        from <= to <= old(screen)@.height(),
    ensures
        same_but(old(screen)@, final(screen)@, x as int, from as int, to as int),
        forall|y: int| from <= y < to ==> #[trigger] final(screen)@.rows[y][x as int] == p,
{
    let mut y: usize = from;
    while y < to
        invariant
            from <= y <= to <= old(screen)@.height(),
            x < old(screen)@.width,
            old(screen)@.wf(),
            same_but(old(screen)@, screen@, x as int, from as int, y as int),
            forall|r: int| from <= r < y ==> #[trigger] screen@.rows[r][x as int] == p,
        decreases to - y,
    {
        put(screen, x, y, p);
        y = y + 1;
    }
}

proof fn lemma_texel_bound(y: int, sh: int, d: int, reach: int)
    requires
        0 < d,
        0 < reach,
        wall_top(sh, d, reach) <= y <= sh,
        0 <= sh,
    ensures
        0 <= (y - wall_top(sh, d, reach)) * d <= sh * d + reach + 2 * d,
        0 <= y - wall_top(sh, d, reach) <= sh * d + reach + 2 * d,
        0 <= sh * d,
{
    let t = wall_top(sh, d, reach);
    let rem = (sh * d - reach) % (2 * d);
    lemma_fundamental_div_mod(sh * d - reach, 2 * d);
    lemma_mod_bound(sh * d - reach, 2 * d);
    assert(0 <= (y - t) * d <= sh * d + reach + 2 * d && 0 <= sh * d && y - t <= (y - t) * d)
        by (nonlinear_arith)
        requires
            sh * d - reach == (2 * d) * t + rem,
            0 <= rem < 2 * d,
            t <= y <= sh,
            0 <= sh,
            0 < d,
            0 < reach,
    ;
}

/// Paints rows `top` to `bottom` of column `x` from column `col` of a tile.
fn texture_rows(
    screen: &mut Screen,
    x: usize,
    top: usize,
    bottom: usize,
    tile: &Tile,
    col: usize,
    top_raw: i128,
    d: i128,
    reach: i128,
)
    requires
        old(screen)@.wf(),
        x < old(screen)@.width,
        top <= bottom <= old(screen)@.height() <= MAX_SCREEN,
        tile@.len() == TILE_SZ * TILE_SZ,
        col < TILE_SZ,
        0 < d <= 2475880078570760549798248448,
        0 < reach <= 83756777383891565568589824,
        top_raw == wall_top(old(screen)@.height() as int, d as int, reach as int),
        top_raw <= top,
    ensures
        same_but(old(screen)@, final(screen)@, x as int, top as int, bottom as int),
        forall|y: int|
            top <= y < bottom ==> #[trigger] final(screen)@.rows[y][x as int] == tile@[texel_row(
                y,
                top_raw as int,
                d as int,
                reach as int,
            ) * TILE_SZ + col],
{
    let ghost sh = old(screen)@.height() as int;
    let mut y: usize = top;
    while y < bottom
        invariant
            top <= y <= bottom <= sh <= MAX_SCREEN,
            sh == old(screen)@.height(),
            x < old(screen)@.width,
            old(screen)@.wf(),
            tile@.len() == TILE_SZ * TILE_SZ,
            col < TILE_SZ,
            0 < d <= 2475880078570760549798248448,
            0 < reach <= 83756777383891565568589824,
            top_raw == wall_top(sh, d as int, reach as int),
            top_raw <= top,
            same_but(old(screen)@, screen@, x as int, top as int, y as int),
            forall|r: int|
                top <= r < y ==> #[trigger] screen@.rows[r][x as int] == tile@[texel_row(
                    r,
                    top_raw as int,
                    d as int,
                    reach as int,
                ) * TILE_SZ + col],
        decreases bottom - y,
    {
        proof {
            lemma_texel_bound(y as int, sh, d as int, reach as int);
            lemma_signed_product_bound(sh, d as int, 4096, 2475880078570760549798248448);
            lemma_div_pos_is_pos((y - top_raw) * d * 64, reach as int);
        }
        let spread: i128 = (y as i128 - top_raw) * d;
        let v: i128 = (spread * 64) / reach;
        let row: usize = if v >= 64 {
            63
        } else {
            v as usize
        };
        let p = tile.texel(row, col);
        put(screen, x, y, p);
        y = y + 1;
    }
}

/// Draws screen column `x` for the outcome of the cast through it: ceiling
/// above the wall, the wall's texture on it, floor below. A miss, or a
/// strike that is not in front of the camera, leaves no wall: the ceiling
/// meets the floor at the horizon.
pub fn draw_column(
    screen: &mut Screen,
    textures: &Textures,
    x: usize,
    hit: Option<Hit>,
    pos: Point,
    dir: Point,
)
    requires
        old(screen)@.wf(),
        x < old(screen)@.width,
        old(screen)@.height() <= MAX_SCREEN,
        textures@.len() == ATLAS_LEN,
        camera_dir(dir),
        0 <= pos.x <= MAX_CELLS * SQUARE_SZ,
        0 <= pos.y <= MAX_CELLS * SQUARE_SZ,
        hit is Some ==> hit->0@.within(MAX_CELLS as int, MAX_CELLS as int) && hit->0.texture.tx
            < TEXTURES,
    ensures
        same_but(old(screen)@, final(screen)@, x as int, 0, old(screen)@.height() as int),
        forall|y: int|
            0 <= y < old(screen)@.height() ==> #[trigger] final(screen)@.rows[y][x as int]
                == column_pixel(
                textures@,
                strike_of(hit),
                pos,
                dir,
                old(screen)@.height() as int,
                y,
            ),
{
    let sh: usize = screen.height();
    if let Some(h) = hit {
        let d: i128 = depth_of(&h, pos, dir);
        if d > 0 {
            proof {
                lemma_within_largest(h@, 4096, 4096);
                lemma_signed_product_bound(
                    sh as int,
                    d as int,
                    4096,
                    2475880078570760549798248448,
                );
                assert(0 <= sh * d) by (nonlinear_arith)
                    requires
                        0 <= sh,
                        0 < d,
                ;
                assert(WALL_HEIGHT * PLANE_DISTANCE == 18161856);
                assert(reach(h@) == 297563848704 * h.den) by (nonlinear_arith)
                    requires
                        reach(h@) == 18161856 * h.den * 16384,
                ;
                lemma_div_is_ordered(sh * d - reach(h@), sh * d, 2 * d);
                lemma_div_is_ordered(sh * d - reach(h@), sh * d + reach(h@), 2 * d);
                lemma_div_multiples_vanish_quotient(d as int, sh as int, 2);
                assert(sh * d == d * sh && 2 * d == d * 2) by (nonlinear_arith);
                lemma_div_pos_is_pos(sh * d + reach(h@), 2 * d);
                lemma_div_pos_is_pos(h.u as int, h.den * UNIT);
            }
            let tall: i128 = WALL_HEIGHT as i128 * PLANE_DISTANCE as i128 * h.den * DIR_ONE as i128;
            let top_raw: i128 = floor_div(sh as i128 * d - tall, 2 * d);
            let bottom_raw: i128 = floor_div(sh as i128 * d + tall, 2 * d);
            let top: usize = if top_raw < 0 {
                0
            } else {
                top_raw as usize
            };
            let bottom: usize = if bottom_raw > sh as i128 {
                sh
            } else {
                bottom_raw as usize
            };
            let c: i128 = h.u / (h.den * UNIT as i128);
            let col: usize = if c >= 64 {
                63
            } else {
                c as usize
            };
            let tile = textures.tx(h.texture);
            fill_rows(screen, x, 0, top, ceil_colour());
            texture_rows(screen, x, top, bottom, &tile, col, top_raw, d, tall);
            fill_rows(screen, x, bottom, sh, floor_colour());
            return ;
        }
    }
    let mid: usize = sh / 2;
    fill_rows(screen, x, 0, mid, ceil_colour());
    fill_rows(screen, x, mid, sh, floor_colour());
}

/// Renders the view from `pos` along `dir` onto the whole screen, one
/// column at a time: a ray is cast through the middle of each column and
/// the column is drawn for what the ray struck.
pub fn render(map: &GridMap, screen: &mut Screen, textures: &Textures, pos: Point, dir: Point)
    requires
        small_grid(map@),
        map@.textures_below(TEXTURES as int),
        map@.cell(pos.x as int / (SQUARE_SZ as int), pos.y as int / (SQUARE_SZ as int))
            == Cell::Empty,
        old(screen)@.wf(),
        old(screen)@.width <= MAX_SCREEN,
        old(screen)@.height() <= MAX_SCREEN,
        textures@.len() == ATLAS_LEN,
        camera_dir(dir),
    ensures
        final(screen)@.width == old(screen)@.width,
        final(screen)@.height() == old(screen)@.height(),
        final(screen)@.wf(),
        forall|x: int, y: int|
            0 <= x < old(screen)@.width && 0 <= y < old(screen)@.height()
                ==> #[trigger] final(screen)@.rows[y][x] == frame_pixel(
                map@,
                textures@,
                pos,
                dir,
                old(screen)@.width as int,
                old(screen)@.height() as int,
                x,
                y,
            ),
{
    let sw: usize = screen.width();
    let ghost sh = screen@.height() as int;
    let mut x: usize = 0;
    while x < sw
        invariant
            x <= sw <= MAX_SCREEN,
            sh <= MAX_SCREEN,
            small_grid(map@),
            map@.textures_below(TEXTURES as int),
            map@.cell(pos.x as int / (SQUARE_SZ as int), pos.y as int / (SQUARE_SZ as int))
                == Cell::Empty,
            textures@.len() == ATLAS_LEN,
            camera_dir(dir),
            screen@.wf(),
            screen@.width == sw,
            screen@.height() == sh,
            old(screen)@.width == sw,
            old(screen)@.height() == sh,
            forall|c: int, y: int|
                0 <= c < x && 0 <= y < sh ==> #[trigger] screen@.rows[y][c] == frame_pixel(
                    map@,
                    textures@,
                    pos,
                    dir,
                    sw as int,
                    sh,
                    c,
                    y,
                ),
        decreases sw - x,
    {
        let ray = column_direction(dir, sw, x);
        let hit = cast_ray(map, pos, ray);
        proof {
            assert(ray_of(pos, ray) == column_ray(pos, dir, sw as int, x as int));
            lemma_texture_on_grid(ray_of(pos, ray), map@, TEXTURES as int);
            if hit is Some {
                lemma_within_largest(hit->0@, map@.width as int, map@.height() as int);
            }
        }
        draw_column(screen, textures, x, hit, pos, dir);
        x = x + 1;
    }
}

} // verus!
